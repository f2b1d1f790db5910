//! The output document and its JSON text.
//!
//! The document pairs a capture timestamp with the named bucket lists.
//! Its JSON text is fixed down to the byte: object keys in the order the
//! buckets were handed over, numbers in plain decimal, no whitespace.

use vstd::prelude::*;
use vstd::string::StringExecFns;

use crate::matcher::ListData;

verus! {

/// The document handed to whatever writes the result out: a capture
/// timestamp in seconds since the epoch, plus the named bucket lists.
pub struct Output {
    /// Seconds since the epoch at capture time.
    pub timestamp: u64,
    /// One `(bucket name, lists)` entry per non-empty bucket.
    pub lists: Vec<(String, ListData)>,
}

/// The decimal digit character for a value below ten.
pub open spec fn spec_digit(d: int) -> char {
    if d == 0 {
        '0'
    } else if d == 1 {
        '1'
    } else if d == 2 {
        '2'
    } else if d == 3 {
        '3'
    } else if d == 4 {
        '4'
    } else if d == 5 {
        '5'
    } else if d == 6 {
        '6'
    } else if d == 7 {
        '7'
    } else if d == 8 {
        '8'
    } else {
        '9'
    }
}

/// The plain decimal rendering of a non-negative number, no sign, no
/// leading zeros (a single zero for `0`).
pub open spec fn spec_dec_digits(n: int) -> Seq<char>
    decreases n,
{
    if n < 10 {
        seq![spec_digit(n)]
    } else {
        spec_dec_digits(n / 10).push(spec_digit(n % 10))
    }
}

/// Appends one decimal digit character.
fn append_digit(out: &mut String, d: u64)
    requires
        d < 10,
    ensures
        final(out)@ == old(out)@ + seq![spec_digit(d as int)],
{
    if d == 0 {
        out.append("0");
        proof {
            reveal_strlit("0");
            assert("0"@ =~= seq![spec_digit(d as int)]);
        }
    } else if d == 1 {
        out.append("1");
        proof {
            reveal_strlit("1");
            assert("1"@ =~= seq![spec_digit(d as int)]);
        }
    } else if d == 2 {
        out.append("2");
        proof {
            reveal_strlit("2");
            assert("2"@ =~= seq![spec_digit(d as int)]);
        }
    } else if d == 3 {
        out.append("3");
        proof {
            reveal_strlit("3");
            assert("3"@ =~= seq![spec_digit(d as int)]);
        }
    } else if d == 4 {
        out.append("4");
        proof {
            reveal_strlit("4");
            assert("4"@ =~= seq![spec_digit(d as int)]);
        }
    } else if d == 5 {
        out.append("5");
        proof {
            reveal_strlit("5");
            assert("5"@ =~= seq![spec_digit(d as int)]);
        }
    } else if d == 6 {
        out.append("6");
        proof {
            reveal_strlit("6");
            assert("6"@ =~= seq![spec_digit(d as int)]);
        }
    } else if d == 7 {
        out.append("7");
        proof {
            reveal_strlit("7");
            assert("7"@ =~= seq![spec_digit(d as int)]);
        }
    } else if d == 8 {
        out.append("8");
        proof {
            reveal_strlit("8");
            assert("8"@ =~= seq![spec_digit(d as int)]);
        }
    } else {
        out.append("9");
        proof {
            reveal_strlit("9");
            assert("9"@ =~= seq![spec_digit(d as int)]);
        }
    }
}

/// Appends the decimal rendering of `n`.
pub fn append_u64(out: &mut String, n: u64)
    ensures
        final(out)@ == old(out)@ + spec_dec_digits(n as int),
    decreases n,
{
    if n < 10 {
        append_digit(out, n);
    } else {
        append_u64(out, n / 10);
        append_digit(out, n % 10);
        proof {
            assert(out@ =~= old(out)@ + spec_dec_digits(n as int));
        }
    }
}

/// The first `n` address values, comma-separated.
pub open spec fn spec_addr_items(s: Seq<u64>, n: int) -> Seq<char>
    decreases n,
{
    if n <= 0 {
        Seq::empty()
    } else {
        spec_addr_items(s, n - 1) + (if n > 1 {
            ","@
        } else {
            Seq::<char>::empty()
        }) + spec_dec_digits(s[n - 1] as int)
    }
}

/// The first `n` range pairs, each as `[start,end]`, comma-separated.
pub open spec fn spec_net_items(s: Seq<(u64, u64)>, n: int) -> Seq<char>
    decreases n,
{
    if n <= 0 {
        Seq::empty()
    } else {
        spec_net_items(s, n - 1) + (if n > 1 {
            ","@
        } else {
            Seq::<char>::empty()
        }) + "["@ + spec_dec_digits(s[n - 1].0 as int) + ","@ + spec_dec_digits(s[n - 1].1 as int)
            + "]"@
    }
}

/// One bucket entry: its name as the key, then its two lists.
pub open spec fn spec_entry(name: Seq<char>, d: ListData, first: bool) -> Seq<char> {
    (if first {
        Seq::<char>::empty()
    } else {
        ","@
    }) + "\""@ + name + "\":{\"addresses\":["@ + spec_addr_items(
        d.addresses@,
        d.addresses@.len() as int,
    ) + "],\"networks\":["@ + spec_net_items(d.networks@, d.networks@.len() as int) + "]}"@
}

/// The first `n` bucket entries.
pub open spec fn spec_list_items(ls: Seq<(String, ListData)>, n: int) -> Seq<char>
    decreases n,
{
    if n <= 0 {
        Seq::empty()
    } else {
        spec_list_items(ls, n - 1) + spec_entry(ls[n - 1].0@, ls[n - 1].1, n == 1)
    }
}

/// The whole JSON document.
pub open spec fn spec_json_document(timestamp: u64, ls: Seq<(String, ListData)>) -> Seq<char> {
    "{\"timestamp\":"@ + spec_dec_digits(timestamp as int) + ",\"lists\":{"@ + spec_list_items(
        ls,
        ls.len() as int,
    ) + "}}"@
}

/// Bucket entries whose names and lists read the same render to the
/// same text, whatever distinct values carry them.
pub proof fn lemma_list_items_equal(
    ls1: Seq<(String, ListData)>,
    ls2: Seq<(String, ListData)>,
    n: int,
)
    requires
        forall|j: int|
            0 <= j < n ==> (#[trigger] ls1[j]).0@ == ls2[j].0@ && ls1[j].1.addresses@
                == ls2[j].1.addresses@ && ls1[j].1.networks@ == ls2[j].1.networks@,
    ensures
        spec_list_items(ls1, n) == spec_list_items(ls2, n),
    decreases n,
{
    if n > 0 {
        lemma_list_items_equal(ls1, ls2, n - 1);
    }
}

/// Renders the document as JSON text, byte for byte as
/// `spec_json_document` states it.
pub fn render_json(output: &Output) -> (r: String)
    ensures
        r@ == spec_json_document(output.timestamp, output.lists@),
{
    let mut out = String::new();
    out.append("{\"timestamp\":");
    append_u64(&mut out, output.timestamp);
    out.append(",\"lists\":{");
    let ghost head = "{\"timestamp\":"@ + spec_dec_digits(output.timestamp as int)
        + ",\"lists\":{"@;
    proof {
        assert(out@ =~= head + spec_list_items(output.lists@, 0));
    }
    let mut i: usize = 0;
    while i < output.lists.len()
        invariant
            i <= output.lists@.len(),
            out@ == head + spec_list_items(output.lists@, i as int),
        decreases output.lists@.len() - i,
    {
        let ghost base = out@;
        let entry = &output.lists[i];
        if i > 0 {
            out.append(",");
        }
        out.append("\"");
        out.append(entry.0.as_str());
        out.append("\":{\"addresses\":[");
        let ghost addr_base = out@;
        let mut j: usize = 0;
        while j < entry.1.addresses.len()
            invariant
                j <= entry.1.addresses@.len(),
                out@ == addr_base + spec_addr_items(entry.1.addresses@, j as int),
            decreases entry.1.addresses@.len() - j,
        {
            if j > 0 {
                out.append(",");
            }
            append_u64(&mut out, entry.1.addresses[j]);
            proof {
                assert(out@ =~= addr_base + spec_addr_items(entry.1.addresses@, j + 1));
            }
            j = j + 1;
        }
        out.append("],\"networks\":[");
        let ghost net_base = out@;
        let mut j: usize = 0;
        while j < entry.1.networks.len()
            invariant
                j <= entry.1.networks@.len(),
                out@ == net_base + spec_net_items(entry.1.networks@, j as int),
            decreases entry.1.networks@.len() - j,
        {
            if j > 0 {
                out.append(",");
            }
            out.append("[");
            append_u64(&mut out, entry.1.networks[j].0);
            out.append(",");
            append_u64(&mut out, entry.1.networks[j].1);
            out.append("]");
            proof {
                assert(out@ =~= net_base + spec_net_items(entry.1.networks@, j + 1));
            }
            j = j + 1;
        }
        out.append("]}");
        proof {
            assert(out@ =~= base + spec_entry(
                output.lists@[i as int].0@,
                output.lists@[i as int].1,
                i == 0,
            ));
            assert(out@ =~= head + spec_list_items(output.lists@, i + 1));
        }
        i = i + 1;
    }
    out.append("}}");
    proof {
        assert(out@ =~= spec_json_document(output.timestamp, output.lists@));
    }
    out
}

} // verus!
