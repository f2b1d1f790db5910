//! The chunked extraction pipeline: decode and classify a range of
//! records into private per-bucket lists, merge them into the shared
//! accumulator, and drain the accumulator into the final named lists.
//!
//! The record index range is partitioned into consecutive fixed-size
//! chunks. A caller may process chunks concurrently: each chunk's
//! private lists depend only on the immutable input bytes, and the
//! merge contract together with `lemma_extraction_deterministic` shows
//! that the drained output does not depend on merge order.

use vstd::prelude::*;
use vstd::string::StringExecFns;

use crate::buckets::{
    create_empty_sets, is_union, lemma_sorted_unique_equal, lemma_sorted_unique_equal_pairs,
    merge_lists, strictly_sorted_pairs, strictly_sorted_u64, wf_sets,
};
use crate::header::{spec_header, DatabaseHeader, HEADER_LEN};
use crate::matcher::{
    categorize, category_name, create_empty_lists, spec_category_name, spec_record_addresses,
    spec_record_networks, ListData, CATEGORY_COUNT,
};
use crate::record::{read_record, read_row, spec_read_row, spec_record_fields};

verus! {

/// Number of records one chunk covers; the last chunk may be shorter.
pub const CHUNK_SIZE: u32 = 10000;

/// The addresses record `i` contributes to the bucket of category `c`;
/// a record whose row cannot be read contributes nothing.
pub open spec fn spec_row_addresses(m: Seq<u8>, h: DatabaseHeader, i: int, c: int) -> Seq<u64> {
    match spec_read_row(m, h, i) {
        Some(span) => spec_record_addresses(span.0, span.1, spec_record_fields(m, h, i), c),
        None => Seq::empty(),
    }
}

/// The ranges record `i` contributes to the bucket of category `c`.
pub open spec fn spec_row_networks(m: Seq<u8>, h: DatabaseHeader, i: int, c: int) -> Seq<
    (u64, u64),
> {
    match spec_read_row(m, h, i) {
        Some(span) => spec_record_networks(span.0, span.1, spec_record_fields(m, h, i), c),
        None => Seq::empty(),
    }
}

/// All addresses the records with indices in `[start, end)` contribute
/// to the bucket of category `c`, in record order.
pub open spec fn spec_range_addresses(
    m: Seq<u8>,
    h: DatabaseHeader,
    start: int,
    end: int,
    c: int,
) -> Seq<u64>
    decreases end - start,
{
    if start >= end {
        Seq::empty()
    } else {
        spec_range_addresses(m, h, start, end - 1, c) + spec_row_addresses(m, h, end - 1, c)
    }
}

/// All ranges the records with indices in `[start, end)` contribute to
/// the bucket of category `c`, in record order.
pub open spec fn spec_range_networks(
    m: Seq<u8>,
    h: DatabaseHeader,
    start: int,
    end: int,
    c: int,
) -> Seq<(u64, u64)>
    decreases end - start,
{
    if start >= end {
        Seq::empty()
    } else {
        spec_range_networks(m, h, start, end - 1, c) + spec_row_networks(m, h, end - 1, c)
    }
}

/// Decodes and classifies the records with indices in `[start, end)`,
/// appending each contribution to the given private per-bucket lists.
/// Rows that cannot be read are skipped, never fatal.
pub fn process_range(
    mem: &[u8],
    header: &DatabaseHeader,
    start: u32,
    end: u32,
    lists: &mut Vec<ListData>,
)
    requires
        start <= end,
        old(lists)@.len() == CATEGORY_COUNT,
    ensures
        final(lists)@.len() == CATEGORY_COUNT,
        forall|c: int|
            0 <= c < CATEGORY_COUNT ==> (#[trigger] final(lists)@[c]).addresses@ == old(
                lists,
            )@[c].addresses@ + spec_range_addresses(mem@, *header, start as int, end as int, c)
                && final(lists)@[c].networks@ == old(lists)@[c].networks@ + spec_range_networks(
                mem@,
                *header,
                start as int,
                end as int,
                c,
            ),
{
    let mut idx: u32 = start;
    while idx < end
        invariant
            start <= idx <= end,
            lists@.len() == CATEGORY_COUNT,
            forall|c: int|
                0 <= c < CATEGORY_COUNT ==> (#[trigger] lists@[c]).addresses@ == old(
                    lists,
                )@[c].addresses@ + spec_range_addresses(mem@, *header, start as int, idx as int, c)
                    && lists@[c].networks@ == old(lists)@[c].networks@ + spec_range_networks(
                    mem@,
                    *header,
                    start as int,
                    idx as int,
                    c,
                ),
        decreases end - idx,
    {
        let ghost mid = lists@;
        let row = read_row(mem, header, idx);
        match row {
            Some(span) => {
                let fields = read_record(mem, header, idx);
                categorize(lists, span.0, span.1, &fields);
            },
            None => {},
        }
        proof {
            assert forall|c: int| 0 <= c < CATEGORY_COUNT implies (#[trigger] lists@[c]).addresses@
                == old(lists)@[c].addresses@ + spec_range_addresses(
                mem@,
                *header,
                start as int,
                idx + 1,
                c,
            ) && lists@[c].networks@ == old(lists)@[c].networks@ + spec_range_networks(
                mem@,
                *header,
                start as int,
                idx + 1,
                c,
            ) by {
                assert(spec_range_addresses(mem@, *header, start as int, idx + 1, c)
                    == spec_range_addresses(mem@, *header, start as int, idx as int, c)
                    + spec_row_addresses(mem@, *header, idx as int, c));
                assert(spec_range_networks(mem@, *header, start as int, idx + 1, c)
                    == spec_range_networks(mem@, *header, start as int, idx as int, c)
                    + spec_row_networks(mem@, *header, idx as int, c));
                assert(lists@[c].addresses@ =~= old(lists)@[c].addresses@ + (spec_range_addresses(
                    mem@,
                    *header,
                    start as int,
                    idx as int,
                    c,
                ) + spec_row_addresses(mem@, *header, idx as int, c)));
                assert(lists@[c].networks@ =~= old(lists)@[c].networks@ + (spec_range_networks(
                    mem@,
                    *header,
                    start as int,
                    idx as int,
                    c,
                ) + spec_row_networks(mem@, *header, idx as int, c)));
            }
        }
        idx = idx + 1;
    }
}

/// Splitting an index range splits its contributions: the two halves
/// concatenate to the whole.
pub proof fn lemma_range_addresses_concat(
    m: Seq<u8>,
    h: DatabaseHeader,
    a: int,
    b: int,
    d: int,
    c: int,
)
    requires
        a <= b <= d,
    ensures
        spec_range_addresses(m, h, a, d, c) == spec_range_addresses(m, h, a, b, c)
            + spec_range_addresses(m, h, b, d, c),
    decreases d - b,
{
    if d == b {
        assert(spec_range_addresses(m, h, a, d, c) =~= spec_range_addresses(m, h, a, b, c)
            + spec_range_addresses(m, h, b, d, c));
    } else {
        lemma_range_addresses_concat(m, h, a, b, d - 1, c);
        assert(spec_range_addresses(m, h, a, d, c) =~= spec_range_addresses(m, h, a, b, c)
            + spec_range_addresses(m, h, b, d, c));
    }
}

/// The same split for range contributions.
pub proof fn lemma_range_networks_concat(
    m: Seq<u8>,
    h: DatabaseHeader,
    a: int,
    b: int,
    d: int,
    c: int,
)
    requires
        a <= b <= d,
    ensures
        spec_range_networks(m, h, a, d, c) == spec_range_networks(m, h, a, b, c)
            + spec_range_networks(m, h, b, d, c),
    decreases d - b,
{
    if d == b {
        assert(spec_range_networks(m, h, a, d, c) =~= spec_range_networks(m, h, a, b, c)
            + spec_range_networks(m, h, b, d, c));
    } else {
        lemma_range_networks_concat(m, h, a, b, d - 1, c);
        assert(spec_range_networks(m, h, a, d, c) =~= spec_range_networks(m, h, a, b, c)
            + spec_range_networks(m, h, b, d, c));
    }
}

/// True when the accumulated bucket of category `c` still holds
/// anything after deduplication.
pub open spec fn spec_keep(s: Seq<ListData>, c: int) -> bool {
    s[c].addresses@.len() > 0 || s[c].networks@.len() > 0
}

/// The category indices in `[c, CATEGORY_COUNT)` whose buckets are kept,
/// in ascending order.
pub open spec fn spec_kept_indices(s: Seq<ListData>, c: int) -> Seq<int>
    decreases CATEGORY_COUNT - c,
{
    if c < 0 || c >= CATEGORY_COUNT {
        Seq::empty()
    } else if spec_keep(s, c) {
        seq![c] + spec_kept_indices(s, c + 1)
    } else {
        spec_kept_indices(s, c + 1)
    }
}

/// Drains the shared accumulator: every non-empty bucket becomes one
/// named entry, in the fixed category order; empty buckets are omitted.
pub fn finalize_lists(sets: Vec<ListData>) -> (r: Vec<(String, ListData)>)
    requires
        sets@.len() == CATEGORY_COUNT,
    ensures
        r@.len() == spec_kept_indices(sets@, 0).len(),
        forall|j: int|
            0 <= j < r@.len() ==> {
                let c = spec_kept_indices(sets@, 0)[j];
                (#[trigger] r@[j]).0@ == spec_category_name(c) && r@[j].1 == sets@[c]
            },
{
    let ghost orig = sets@;
    let mut sets = sets;
    let mut r: Vec<(String, ListData)> = Vec::new();
    let mut c: usize = CATEGORY_COUNT;
    proof {
        assert(sets@ =~= orig.take(c as int));
    }
    while c > 0
        invariant
            c <= CATEGORY_COUNT,
            orig.len() == CATEGORY_COUNT,
            sets@ == orig.take(c as int),
            r@.len() == spec_kept_indices(orig, c as int).len(),
            forall|j: int|
                0 <= j < r@.len() ==> {
                    let k = spec_kept_indices(orig, c as int)[j];
                    (#[trigger] r@[j]).0@ == spec_category_name(k) && r@[j].1 == orig[k]
                },
        decreases c,
    {
        c = c - 1;
        let ghost r0 = r@;
        let entry = sets.pop().unwrap();
        proof {
            assert(entry == orig[c as int]);
            assert(sets@ =~= orig.take(c as int));
        }
        if entry.addresses.len() > 0 || entry.networks.len() > 0 {
            let name = category_name(c);
            let named = String::from_str(name);
            r.insert(0, (named, entry));
            proof {
                r0.insert_ensures(0, (named, entry));
                assert(spec_keep(orig, c as int));
                assert(spec_kept_indices(orig, c as int) == seq![c as int] + spec_kept_indices(
                    orig,
                    c + 1,
                ));
                assert forall|j: int| 0 <= j < r@.len() implies {
                    let k = spec_kept_indices(orig, c as int)[j];
                    (#[trigger] r@[j]).0@ == spec_category_name(k) && r@[j].1 == orig[k]
                } by {
                    if j == 0 {
                        assert(r@[0] == (named, entry));
                        assert(spec_kept_indices(orig, c as int)[0] == c as int);
                    } else {
                        assert(r@[j] == r0[j - 1]);
                        assert(spec_kept_indices(orig, c as int)[j] == spec_kept_indices(
                            orig,
                            c + 1,
                        )[j - 1]);
                    }
                }
            }
        } else {
            proof {
                assert(!spec_keep(orig, c as int));
            }
        }
    }
    proof {
        assert(spec_kept_indices(orig, 0) == spec_kept_indices(orig, c as int));
    }
    r
}

/// The bucket `d` holds exactly the contributions of the records with
/// indices in `[0, upto)` to category `c`, duplicates collapsed.
pub open spec fn spec_bucket_covers(
    m: Seq<u8>,
    h: DatabaseHeader,
    d: ListData,
    upto: int,
    c: int,
) -> bool {
    (forall|y: u64|
        d.addresses@.contains(y) <==> spec_range_addresses(m, h, 0, upto, c).contains(y))
        && (forall|y: (u64, u64)|
        d.networks@.contains(y) <==> spec_range_networks(m, h, 0, upto, c).contains(y))
}

/// The bucket of category `c` as the whole input determines it: sorted,
/// deduplicated, and holding exactly the contributions of all declared
/// records.
pub open spec fn spec_bucket_ok(m: Seq<u8>, h: DatabaseHeader, c: int, d: ListData) -> bool {
    strictly_sorted_u64(d.addresses@) && strictly_sorted_pairs(d.networks@) && spec_bucket_covers(
        m,
        h,
        d,
        h.ipv4_count as int,
        c,
    )
}

/// True when category `c` receives any contribution at all from the
/// declared records.
pub open spec fn spec_nonempty(m: Seq<u8>, h: DatabaseHeader, c: int) -> bool {
    spec_range_addresses(m, h, 0, h.ipv4_count as int, c).len() > 0 || spec_range_networks(
        m,
        h,
        0,
        h.ipv4_count as int,
        c,
    ).len() > 0
}

/// The category indices in `[c, CATEGORY_COUNT)` whose buckets the whole
/// input leaves non-empty, in ascending order.
pub open spec fn spec_kept_categories(m: Seq<u8>, h: DatabaseHeader, c: int) -> Seq<int>
    decreases CATEGORY_COUNT - c,
{
    if c < 0 || c >= CATEGORY_COUNT {
        Seq::empty()
    } else if spec_nonempty(m, h, c) {
        seq![c] + spec_kept_categories(m, h, c + 1)
    } else {
        spec_kept_categories(m, h, c + 1)
    }
}

/// What a successful extraction returns: one entry per non-empty bucket,
/// in the fixed category order, each entry carrying the bucket's name
/// and its sorted, deduplicated lists.
pub open spec fn spec_output_ok(m: Seq<u8>, out: Seq<(String, ListData)>) -> bool {
    let h = spec_header(m);
    let kept = spec_kept_categories(m, h, 0);
    out.len() == kept.len() && forall|j: int|
        0 <= j < out.len() ==> {
            let c = kept[j];
            (#[trigger] out[j]).0@ == spec_category_name(c) && spec_bucket_ok(m, h, c, out[j].1)
        }
}

/// Every kept category index lies between its starting point and the
/// category count.
proof fn lemma_kept_bounds(m: Seq<u8>, h: DatabaseHeader, c: int)
    ensures
        forall|j: int|
            0 <= j < spec_kept_categories(m, h, c).len() ==> c <= #[trigger] spec_kept_categories(
                m,
                h,
                c,
            )[j] < CATEGORY_COUNT,
    decreases CATEGORY_COUNT - c,
{
    if c < 0 || c >= CATEGORY_COUNT {
    } else {
        lemma_kept_bounds(m, h, c + 1);
        let kept = spec_kept_categories(m, h, c);
        let rest = spec_kept_categories(m, h, c + 1);
        assert forall|j: int| 0 <= j < kept.len() implies c <= #[trigger] kept[j]
            < CATEGORY_COUNT by {
            if spec_nonempty(m, h, c) {
                if j > 0 {
                    assert(kept[j] == rest[j - 1]);
                }
            } else {
                assert(kept[j] == rest[j]);
            }
        }
    }
}

/// Keeping a bucket is the same decision whether made on the
/// accumulator or on the input's contributions.
proof fn lemma_kept_agree(s: Seq<ListData>, m: Seq<u8>, h: DatabaseHeader, c: int)
    requires
        forall|k: int|
            c <= k < CATEGORY_COUNT ==> (#[trigger] spec_keep(s, k) <==> spec_nonempty(m, h, k)),
    ensures
        spec_kept_indices(s, c) == spec_kept_categories(m, h, c),
    decreases CATEGORY_COUNT - c,
{
    if c < 0 || c >= CATEGORY_COUNT {
    } else {
        lemma_kept_agree(s, m, h, c + 1);
    }
}

/// Runs the whole pipeline on the raw bytes of a database file: decodes
/// the header, processes the declared records chunk by chunk, merges
/// every chunk into the shared accumulator and drains it. Returns
/// `None` exactly when the file is too short to hold a header.
pub fn extract_proxy_ips(mem: &[u8]) -> (r: Option<Vec<(String, ListData)>>)
    ensures
        match r {
            None => mem@.len() < HEADER_LEN,
            Some(out) => mem@.len() >= HEADER_LEN && spec_output_ok(mem@, out@),
        },
{
    let header = match DatabaseHeader::parse(mem) {
        Some(h) => h,
        None => {
            return None;
        },
    };
    let total = header.ipv4_count;
    let mut sets = create_empty_sets();
    let mut start: u32 = 0;
    while start < total
        invariant
            start <= total,
            total == header.ipv4_count,
            header == spec_header(mem@),
            wf_sets(sets@),
            forall|c: int|
                0 <= c < CATEGORY_COUNT ==> spec_bucket_covers(
                    mem@,
                    header,
                    #[trigger] sets@[c],
                    start as int,
                    c,
                ),
        decreases total - start,
    {
        let end = if total - start < CHUNK_SIZE {
            total
        } else {
            start + CHUNK_SIZE
        };
        let mut local = create_empty_lists();
        process_range(mem, &header, start, end, &mut local);
        let ghost sets0 = sets@;
        merge_lists(&mut sets, &local);
        proof {
            assert forall|c: int| 0 <= c < CATEGORY_COUNT implies spec_bucket_covers(
                mem@,
                header,
                #[trigger] sets@[c],
                end as int,
                c,
            ) by {
                lemma_range_addresses_concat(mem@, header, 0, start as int, end as int, c);
                lemma_range_networks_concat(mem@, header, 0, start as int, end as int, c);
                assert(local@[c].addresses@ =~= spec_range_addresses(
                    mem@,
                    header,
                    start as int,
                    end as int,
                    c,
                ));
                assert(local@[c].networks@ =~= spec_range_networks(
                    mem@,
                    header,
                    start as int,
                    end as int,
                    c,
                ));
                assert forall|y: u64|
                    sets@[c].addresses@.contains(y) <==> spec_range_addresses(
                        mem@,
                        header,
                        0,
                        end as int,
                        c,
                    ).contains(y) by {
                    lemma_concat_contains(
                        spec_range_addresses(mem@, header, 0, start as int, c),
                        spec_range_addresses(mem@, header, start as int, end as int, c),
                        y,
                    );
                }
                assert forall|y: (u64, u64)|
                    sets@[c].networks@.contains(y) <==> spec_range_networks(
                        mem@,
                        header,
                        0,
                        end as int,
                        c,
                    ).contains(y) by {
                    lemma_concat_contains(
                        spec_range_networks(mem@, header, 0, start as int, c),
                        spec_range_networks(mem@, header, start as int, end as int, c),
                        y,
                    );
                }
            }
        }
        start = end;
    }
    let ghost final_sets = sets@;
    proof {
        assert forall|k: int|
            0 <= k < CATEGORY_COUNT implies (#[trigger] spec_keep(final_sets, k)
            <==> spec_nonempty(mem@, header, k)) by {
            let addrs = spec_range_addresses(mem@, header, 0, total as int, k);
            let nets = spec_range_networks(mem@, header, 0, total as int, k);
            if final_sets[k].addresses@.len() > 0 {
                assert(final_sets[k].addresses@.contains(final_sets[k].addresses@[0]));
            }
            if final_sets[k].networks@.len() > 0 {
                assert(final_sets[k].networks@.contains(final_sets[k].networks@[0]));
            }
            if addrs.len() > 0 {
                assert(addrs.contains(addrs[0]));
                assert(final_sets[k].addresses@.contains(addrs[0]));
            }
            if nets.len() > 0 {
                assert(nets.contains(nets[0]));
                assert(final_sets[k].networks@.contains(nets[0]));
            }
        }
        lemma_kept_agree(final_sets, mem@, header, 0);
    }
    let out = finalize_lists(sets);
    proof {
        let kept = spec_kept_categories(mem@, header, 0);
        assert forall|j: int| 0 <= j < out@.len() implies {
            let c = kept[j];
            (#[trigger] out@[j]).0@ == spec_category_name(c) && spec_bucket_ok(
                mem@,
                header,
                c,
                out@[j].1,
            )
        } by {
            let c = kept[j];
            lemma_kept_bounds(mem@, header, 0);
            assert(kept == spec_kept_indices(final_sets, 0));
            assert(0 <= c < CATEGORY_COUNT);
            assert(out@[j].0@ == spec_category_name(c));
            assert(out@[j].1 == final_sets[c]);
            assert(strictly_sorted_u64(final_sets[c].addresses@));
            assert(strictly_sorted_pairs(final_sets[c].networks@));
            assert(spec_bucket_covers(mem@, header, final_sets[c], header.ipv4_count as int, c));
        }
    }
    Some(out)
}

/// Two extractions from the same bytes return the same lists, entry for
/// entry: the output is a function of the input bytes alone, whatever
/// order chunks were processed and merged in.
pub proof fn lemma_extraction_deterministic(
    m: Seq<u8>,
    out1: Seq<(String, ListData)>,
    out2: Seq<(String, ListData)>,
)
    requires
        spec_output_ok(m, out1),
        spec_output_ok(m, out2),
    ensures
        out1.len() == out2.len(),
        forall|j: int|
            0 <= j < out1.len() ==> (#[trigger] out1[j]).0@ == out2[j].0@ && out1[j].1.addresses@
                == out2[j].1.addresses@ && out1[j].1.networks@ == out2[j].1.networks@,
{
    let h = spec_header(m);
    assert forall|j: int|
        0 <= j < out1.len() implies (#[trigger] out1[j]).0@ == out2[j].0@ && out1[j].1.addresses@
        == out2[j].1.addresses@ && out1[j].1.networks@ == out2[j].1.networks@ by {
        let c = spec_kept_categories(m, h, 0)[j];
        assert(spec_bucket_ok(m, h, c, out1[j].1));
        assert(spec_bucket_ok(m, h, c, out2[j].1));
        lemma_sorted_unique_equal(out1[j].1.addresses@, out2[j].1.addresses@);
        lemma_sorted_unique_equal_pairs(out1[j].1.networks@, out2[j].1.networks@);
    }
}

/// Two runs over the same immutable input produce byte-identical JSON
/// documents apart from the timestamp: rendered with the same timestamp,
/// any two extraction outputs for the same bytes give one and the same
/// text.
pub proof fn lemma_documents_byte_identical(
    m: Seq<u8>,
    timestamp: u64,
    out1: Seq<(String, ListData)>,
    out2: Seq<(String, ListData)>,
)
    requires
        spec_output_ok(m, out1),
        spec_output_ok(m, out2),
    ensures
        crate::output::spec_json_document(timestamp, out1) == crate::output::spec_json_document(
            timestamp,
            out2,
        ),
{
    lemma_extraction_deterministic(m, out1, out2);
    crate::output::lemma_list_items_equal(out1, out2, out1.len() as int);
}

/// A concatenation holds exactly the elements of its two parts.
proof fn lemma_concat_contains<T>(a: Seq<T>, b: Seq<T>, y: T)
    ensures
        (a + b).contains(y) <==> (a.contains(y) || b.contains(y)),
{
    if (a + b).contains(y) {
        let k = choose|k: int| 0 <= k < (a + b).len() && (a + b)[k] == y;
        if k < a.len() {
            assert(a[k] == y);
        } else {
            assert(b[k - a.len()] == y);
        }
    }
    if a.contains(y) {
        let k = choose|k: int| 0 <= k < a.len() && a[k] == y;
        assert((a + b)[k] == y);
    }
    if b.contains(y) {
        let k = choose|k: int| 0 <= k < b.len() && b[k] == y;
        assert((a + b)[k + a.len()] == y);
    }
}

} // verus!
