//! The sampling surface: the JSON body that lists the live allocations and
//! the HTTP response that carries it.

use vstd::prelude::*;
use vstd::slice::slice_to_vec;
use vstd::string::StringExecFns;
use vstd::utf8::encode_utf8;

use crate::stats::InfoProgram;

verus! {

/// The decimal digit character for `d`.
pub open spec fn digit_char(d: int) -> char {
    if d == 0 {
        '0'
    } else if d == 1 {
        '1'
    } else if d == 2 {
        '2'
    } else if d == 3 {
        '3'
    } else if d == 4 {
        '4'
    } else if d == 5 {
        '5'
    } else if d == 6 {
        '6'
    } else if d == 7 {
        '7'
    } else if d == 8 {
        '8'
    } else {
        '9'
    }
}

/// The decimal numeral of `n`, most significant digit first, without leading
/// zeros (`0` itself is written as one digit).
pub open spec fn spec_decimal(n: nat) -> Seq<char>
    decreases n,
{
    if n < 10 {
        seq![digit_char(n as int)]
    } else {
        spec_decimal(n / 10).push(digit_char((n % 10) as int))
    }
}

/// Appends the decimal numeral of `n` to `s`.
fn push_decimal(s: &mut String, n: usize)
    ensures
        final(s)@ == old(s)@ + spec_decimal(n as nat),
    decreases n,
{
    if n >= 10 {
        push_decimal(s, n / 10);
    }
    let d = n % 10;
    let digit: &str = if d == 0 {
        "0"
    } else if d == 1 {
        "1"
    } else if d == 2 {
        "2"
    } else if d == 3 {
        "3"
    } else if d == 4 {
        "4"
    } else if d == 5 {
        "5"
    } else if d == 6 {
        "6"
    } else if d == 7 {
        "7"
    } else if d == 8 {
        "8"
    } else {
        "9"
    };
    proof {
        reveal_strlit("0");
        reveal_strlit("1");
        reveal_strlit("2");
        reveal_strlit("3");
        reveal_strlit("4");
        reveal_strlit("5");
        reveal_strlit("6");
        reveal_strlit("7");
        reveal_strlit("8");
        reveal_strlit("9");
        assert(digit@ =~= seq![digit_char(d as int)]);
    }
    s.append(digit);
    proof {
        assert(s@ =~= old(s)@ + spec_decimal(n as nat));
    }
}

/// The JSON text of one `[address, size]` pair.
pub open spec fn spec_json_entry(e: (usize, usize)) -> Seq<char> {
    seq!['['] + spec_decimal(e.0 as nat) + seq![','] + spec_decimal(e.1 as nat) + seq![']']
}

/// The JSON text of an entry list, comma separated, without brackets.
pub open spec fn spec_json_entries(entries: Seq<(usize, usize)>) -> Seq<char>
    decreases entries.len(),
{
    if entries.len() == 0 {
        Seq::empty()
    } else if entries.len() == 1 {
        spec_json_entry(entries[0])
    } else {
        spec_json_entries(entries.drop_last()) + seq![','] + spec_json_entry(entries.last())
    }
}

/// The JSON object of a sample: the entry list, its length, the bytes the
/// live allocations hold, and that total plus the bookkeeping capacity, with
/// the keys in lexicographic order.
pub open spec fn spec_json_body(
    entries: Seq<(usize, usize)>,
    memory_allocated: usize,
    total_memory: usize,
) -> Seq<char> {
    "{\"length_memory_array\":"@ + spec_decimal(entries.len()) + ",\"memory\":["@
        + spec_json_entries(entries) + "],\"memory_allocated\":"@ + spec_decimal(
        memory_allocated as nat,
    ) + ",\"total_memory\":"@ + spec_decimal(total_memory as nat) + "}"@
}

/// Renders the JSON sample body for a snapshot.
pub fn json_body(info: &InfoProgram) -> (s: String)
    ensures
        s@ == spec_json_body(info.memory_map@, info.memory_allocated, info.total_memory),
{
    proof {
        reveal_strlit("{\"length_memory_array\":");
        reveal_strlit(",\"memory\":[");
        reveal_strlit("],\"memory_allocated\":");
        reveal_strlit(",\"total_memory\":");
        reveal_strlit("}");
        reveal_strlit("[");
        reveal_strlit(",");
        reveal_strlit("]");
    }
    let mut s = String::new();
    s.append("{\"length_memory_array\":");
    push_decimal(&mut s, info.memory_map.len());
    s.append(",\"memory\":[");
    let ghost prefix = s@;
    let ghost entries = info.memory_map@;
    let n = info.memory_map.len();
    let mut i: usize = 0;
    proof {
        assert(entries.take(0) =~= Seq::<(usize, usize)>::empty());
    }
    while i < n
        invariant
            i <= n,
            n == entries.len(),
            entries == info.memory_map@,
            s@ == prefix + spec_json_entries(entries.take(i as int)),
        decreases n - i,
    {
        proof {
            reveal_strlit("[");
            reveal_strlit(",");
            reveal_strlit("]");
        }
        if i > 0 {
            s.append(",");
        }
        let entry = *info.memory_map.get(i);
        s.append("[");
        push_decimal(&mut s, entry.0);
        s.append(",");
        push_decimal(&mut s, entry.1);
        s.append("]");
        proof {
            assert(entries.take(i + 1).drop_last() =~= entries.take(i as int));
            assert(entries.take(i + 1).last() == entries[i as int]);
            if i == 0 {
                assert(entries.take(1)[0] == entries[0]);
            }
            assert(s@ =~= prefix + spec_json_entries(entries.take(i + 1)));
        }
        i = i + 1;
    }
    proof {
        assert(entries.take(n as int) =~= entries);
    }
    s.append("],\"memory_allocated\":");
    push_decimal(&mut s, info.memory_allocated);
    s.append(",\"total_memory\":");
    push_decimal(&mut s, info.total_memory);
    s.append("}");
    proof {
        assert(s@ =~= spec_json_body(info.memory_map@, info.memory_allocated, info.total_memory));
    }
    s
}

/// The HTTP response that carries `data` as JSON: status line, content-type
/// header, a content-length header counting the body's UTF-8 bytes, a blank
/// line, then the body.
pub open spec fn spec_http_response(data: Seq<char>) -> Seq<char> {
    "HTTP/1.1 200 OK\r\nContent-Type: application/json\r\nContent-Length: "@ + spec_decimal(
        (encode_utf8(data).len() as usize) as nat,
    ) + "\r\n\r\n"@ + data
}

/// Renders the HTTP response that carries `data`, as bytes on the wire.
pub fn get_html(data: &str) -> (r: Vec<u8>)
    ensures
        r@ == encode_utf8(spec_http_response(data@)),
{
    proof {
        reveal_strlit("HTTP/1.1 200 OK\r\nContent-Type: application/json\r\nContent-Length: ");
        reveal_strlit("\r\n\r\n");
    }
    let mut resp = String::new();
    resp.append("HTTP/1.1 200 OK\r\nContent-Type: application/json\r\nContent-Length: ");
    push_decimal(&mut resp, data.len());
    resp.append("\r\n\r\n");
    resp.append(data);
    proof {
        assert(resp@ =~= spec_http_response(data@));
    }
    let bytes: &[u8] = resp.as_str().as_bytes();
    slice_to_vec(bytes)
}

} // verus!
