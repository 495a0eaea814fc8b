//! Marshaling layer: serialization of payload documents and filter
//! expressions into the engine's JSON request text.
//!
//! `ser` is the exact JSON text of a document: integers in decimal,
//! strings quoted with the quote, the backslash and control characters
//! escaped, arrays and objects comma-separated.  `to_json_chars` produces
//! exactly that text.

use vstd::prelude::*;
use vstd::string::StrSliceExecFns;
use vstd::string::StringExecFns;
use crate::json::JsonValue;
use crate::json::SpecJson;
use crate::types::Filter;
use crate::types::MatchValue;

verus! {

broadcast use vstd::std_specs::vec::group_vec_axioms, vstd::seq::group_seq_axioms;

/// The decimal digit character for `d`.
pub open spec fn digit_char(d: nat) -> char {
    if d == 0 {
        '0'
    } else if d == 1 {
        '1'
    } else if d == 2 {
        '2'
    } else if d == 3 {
        '3'
    } else if d == 4 {
        '4'
    } else if d == 5 {
        '5'
    } else if d == 6 {
        '6'
    } else if d == 7 {
        '7'
    } else if d == 8 {
        '8'
    } else {
        '9'
    }
}

/// The hexadecimal digit character for `d`, lower case.
pub open spec fn hex_char(d: nat) -> char {
    if d < 10 {
        digit_char(d)
    } else if d == 10 {
        'a'
    } else if d == 11 {
        'b'
    } else if d == 12 {
        'c'
    } else if d == 13 {
        'd'
    } else if d == 14 {
        'e'
    } else {
        'f'
    }
}

/// The decimal digits of `n`, most significant first.
pub open spec fn dec_digits(n: nat) -> Seq<char>
    decreases n,
{
    if n < 10 {
        seq![digit_char(n)]
    } else {
        dec_digits(n / 10).push(digit_char(n % 10))
    }
}

/// The decimal text of `i`, with a leading minus for a negative value.
pub open spec fn int_chars(i: int) -> Seq<char> {
    if i < 0 {
        seq!['-'] + dec_digits((-i) as nat)
    } else {
        dec_digits(i as nat)
    }
}

/// The escape of one character inside a JSON string.
pub open spec fn esc_char(c: char) -> Seq<char> {
    if c == '"' {
        seq!['\\', '"']
    } else if c == '\\' {
        seq!['\\', '\\']
    } else if (c as nat) < 32 {
        seq!['\\', 'u', '0', '0', hex_char((c as nat) / 16), hex_char((c as nat) % 16)]
    } else {
        seq![c]
    }
}

/// The escaped text of a string's characters.
pub open spec fn esc_seq(s: Seq<char>) -> Seq<char>
    decreases s.len(),
{
    if s.len() == 0 {
        Seq::empty()
    } else {
        esc_char(s[0]) + esc_seq(s.drop_first())
    }
}

/// The JSON text of a document.
pub open spec fn ser(j: SpecJson) -> Seq<char>
    decreases j,
{
    match j {
        SpecJson::Null => seq!['n', 'u', 'l', 'l'],
        SpecJson::Bool(b) => if b {
            seq!['t', 'r', 'u', 'e']
        } else {
            seq!['f', 'a', 'l', 's', 'e']
        },
        SpecJson::Int(i) => int_chars(i),
        SpecJson::Str(s) => seq!['"'] + esc_seq(s) + seq!['"'],
        SpecJson::Arr(items) => seq!['['] + ser_items(items) + seq![']'],
        SpecJson::Obj(es) => seq!['{'] + ser_entries(es) + seq!['}'],
    }
}

/// The comma-separated JSON texts of array elements.
pub open spec fn ser_items(items: Seq<SpecJson>) -> Seq<char>
    decreases items,
{
    if items.len() == 0 {
        Seq::empty()
    } else if items.len() == 1 {
        ser(items[0])
    } else {
        ser_items(items.drop_last()) + seq![','] + ser(items[items.len() - 1])
    }
}

/// The comma-separated JSON texts of object entries, each a quoted
/// escaped key, a colon and the value.
pub open spec fn ser_entries(es: Seq<(Seq<char>, SpecJson)>) -> Seq<char>
    decreases es,
{
    if es.len() == 0 {
        Seq::empty()
    } else if es.len() == 1 {
        ser_entry(es[0])
    } else {
        ser_entries(es.drop_last()) + seq![','] + ser_entry(es[es.len() - 1])
    }
}

/// The JSON text of one object entry.
pub open spec fn ser_entry(e: (Seq<char>, SpecJson)) -> Seq<char>
    decreases e,
{
    seq!['"'] + esc_seq(e.0) + seq!['"', ':'] + ser(e.1)
}

/// The decimal digit character for `d`.
fn digit(d: u64) -> (r: char)
    requires
        d < 10,
    ensures
        r == digit_char(d as nat),
{
    if d == 0 {
        '0'
    } else if d == 1 {
        '1'
    } else if d == 2 {
        '2'
    } else if d == 3 {
        '3'
    } else if d == 4 {
        '4'
    } else if d == 5 {
        '5'
    } else if d == 6 {
        '6'
    } else if d == 7 {
        '7'
    } else if d == 8 {
        '8'
    } else {
        '9'
    }
}

/// The hexadecimal digit character for `d`, lower case.
fn hex(d: u32) -> (r: char)
    requires
        d < 16,
    ensures
        r == hex_char(d as nat),
{
    if d < 10 {
        digit(d as u64)
    } else if d == 10 {
        'a'
    } else if d == 11 {
        'b'
    } else if d == 12 {
        'c'
    } else if d == 13 {
        'd'
    } else if d == 14 {
        'e'
    } else {
        'f'
    }
}

/// Writes the decimal digits of `n`.
fn write_dec(n: u64, out: &mut Vec<char>)
    ensures
        final(out)@ == old(out)@ + dec_digits(n as nat),
    decreases n,
{
    if n < 10 {
        out.push(digit(n));
        proof {
            assert(final(out)@ =~= old(out)@ + dec_digits(n as nat));
        }
    } else {
        write_dec(n / 10, out);
        out.push(digit(n % 10));
        proof {
            assert(final(out)@ =~= old(out)@ + dec_digits(n as nat));
        }
    }
}

/// Writes the decimal text of `i`.
fn write_int(i: i64, out: &mut Vec<char>)
    ensures
        final(out)@ == old(out)@ + int_chars(i as int),
{
    if i < 0 {
        out.push('-');
        let mag: u64 = (-(i as i128)) as u64;
        write_dec(mag, out);
        proof {
            assert(final(out)@ =~= old(out)@ + int_chars(i as int));
        }
    } else {
        write_dec(i as u64, out);
    }
}

/// Writes the escaped text of a string's characters.
#[verifier::loop_isolation(false)]
fn write_escaped(s: &str, out: &mut Vec<char>)
    ensures
        final(out)@ == old(out)@ + esc_seq(s@),
{
    let n = s.unicode_len();
    let mut i: usize = 0;
    let ghost base = out@;
    proof {
        assert(base + esc_seq(s@.take(0)) =~= base);
        assert(out@ =~= base + esc_seq(s@.take(0)));
    }
    while i < n
        invariant
            i <= s@.len(),
            out@ == base + esc_seq_prefix(s@, i as int),
        decreases n - i,
    {
        let c = s.get_char(i);
        let code = c as u32;
        if c == '"' {
            out.push('\\');
            out.push('"');
        } else if c == '\\' {
            out.push('\\');
            out.push('\\');
        } else if code < 32 {
            out.push('\\');
            out.push('u');
            out.push('0');
            out.push('0');
            out.push(hex(code / 16));
            out.push(hex(code % 16));
        } else {
            out.push(c);
        }
        proof {
            lemma_esc_seq_prefix_snoc(s@, i as int);
            assert(out@ =~= base + esc_seq_prefix(s@, i as int + 1));
        }
        i += 1;
    }
    proof {
        lemma_esc_seq_prefix_all(s@);
    }
}

/// The escaped text of the first `n` characters.
pub open spec fn esc_seq_prefix(s: Seq<char>, n: int) -> Seq<char>
    decreases n,
{
    if n <= 0 {
        Seq::empty()
    } else {
        esc_seq_prefix(s, n - 1) + esc_char(s[n - 1])
    }
}

/// One more escaped character extends the escaped prefix.
proof fn lemma_esc_seq_prefix_snoc(s: Seq<char>, i: int)
    requires
        0 <= i < s.len(),
    ensures
        esc_seq_prefix(s, i + 1) == esc_seq_prefix(s, i) + esc_char(s[i]),
{
}

/// The whole escaped prefix is the escaped text.
proof fn lemma_esc_seq_prefix_all(s: Seq<char>)
    ensures
        esc_seq_prefix(s, s.len() as int) == esc_seq(s),
    decreases s.len(),
{
    lemma_esc_prefix_eq(s, s.len() as int);
    assert(s.take(s.len() as int) =~= s);
}

/// The escaped prefix agrees with the front-recursive escape.
proof fn lemma_esc_prefix_eq(s: Seq<char>, n: int)
    requires
        0 <= n <= s.len(),
    ensures
        esc_seq_prefix(s, n) == esc_seq(s.take(n)),
    decreases n,
{
    if n > 0 {
        lemma_esc_prefix_eq(s, n - 1);
        lemma_esc_seq_snoc(s.take(n - 1), s[n - 1]);
        assert(s.take(n).drop_last() =~= s.take(n - 1));
        assert(s.take(n) =~= s.take(n - 1).push(s[n - 1]));
    } else {
        assert(esc_seq(s.take(0)) =~= Seq::<char>::empty());
    }
    if n == s.len() {
        assert(s.take(n) =~= s);
    }
}

/// Escaping distributes over a trailing character.
proof fn lemma_esc_seq_snoc(s: Seq<char>, c: char)
    ensures
        esc_seq(s.push(c)) == esc_seq(s) + esc_char(c),
    decreases s.len(),
{
    if s.len() == 0 {
        assert(s.push(c).drop_first() =~= Seq::<char>::empty());
        assert(s.push(c)[0] == c);
        assert(esc_seq(Seq::<char>::empty()) == Seq::<char>::empty());
        assert(esc_seq(s.push(c)) == esc_char(c) + esc_seq(Seq::<char>::empty()));
        assert(esc_seq(s.push(c)) =~= esc_seq(s) + esc_char(c));
    } else {
        lemma_esc_seq_snoc(s.drop_first(), c);
        assert(s.push(c).drop_first() =~= s.drop_first().push(c));
        assert(s.push(c)[0] == s[0]);
        assert(esc_seq(s.push(c)) == esc_char(s[0]) + esc_seq(s.drop_first().push(c)));
        assert(esc_seq(s.push(c)) =~= esc_seq(s) + esc_char(c));
    }
}

/// Writes the JSON text of a document.
#[verifier::loop_isolation(false)]
fn write_json(v: &JsonValue, out: &mut Vec<char>)
    ensures
        final(out)@ == old(out)@ + ser(v@),
    decreases v,
{
    match v {
        JsonValue::Null => {
            out.push('n');
            out.push('u');
            out.push('l');
            out.push('l');
            proof {
                assert(out@ =~= old(out)@ + ser(v@));
            }
        },
        JsonValue::Bool(b) => {
            if *b {
                out.push('t');
                out.push('r');
                out.push('u');
                out.push('e');
            } else {
                out.push('f');
                out.push('a');
                out.push('l');
                out.push('s');
                out.push('e');
            }
            proof {
                assert(out@ =~= old(out)@ + ser(v@));
            }
        },
        JsonValue::Int(i) => {
            write_int(*i, out);
        },
        JsonValue::Str(s) => {
            out.push('"');
            write_escaped(s.as_str(), out);
            out.push('"');
            proof {
                assert(out@ =~= old(out)@ + ser(v@));
            }
        },
        JsonValue::Arr(items) => {
            let ghost av = crate::json::arr_view(items@);
            proof {
                crate::json::lemma_arr_view(items@);
            }
            out.push('[');
            let ghost base = out@;
            let mut i: usize = 0;
            proof {
                assert(ser_items(av.take(0)) == Seq::<char>::empty());
                assert(out@ =~= base + ser_items(av.take(0)));
            }
            while i < items.len()
                invariant
                    i <= items@.len(),
                    out@ == base + ser_items(av.take(i as int)),
                decreases items@.len() - i,
            {
                if i > 0 {
                    out.push(',');
                }
                proof {
                    assert(decreases_to!(*v => (*v)->Arr_0));
                    assert((*v)->Arr_0 == *items);
                    assert(decreases_to!(*items => items@));
                    assert(decreases_to!(items@ => items@[i as int]));
                }
                write_json(&items[i], out);
                proof {
                    assert(av.take(i as int + 1).drop_last() =~= av.take(i as int));
                    assert(av.take(i as int + 1)[i as int] == av[i as int]);
                    assert(av.take(i as int + 1).len() == i + 1);
                    if i == 0 {
                        assert(ser_items(av.take(1)) == ser(av[0]));
                    } else {
                        assert(ser_items(av.take(i as int + 1)) == ser_items(av.take(i as int))
                            + seq![','] + ser(av[i as int]));
                    }
                    assert(out@ =~= base + ser_items(av.take(i as int + 1)));
                }
                i += 1;
            }
            out.push(']');
            proof {
                assert(av.take(items@.len() as int) =~= av);
                assert(out@ =~= old(out)@ + ser(v@));
            }
        },
        JsonValue::Obj(entries) => {
            let ghost ov = crate::json::obj_view(entries@);
            proof {
                crate::json::lemma_obj_view(entries@);
            }
            out.push('{');
            let ghost base = out@;
            let mut i: usize = 0;
            proof {
                assert(ser_entries(ov.take(0)) == Seq::<char>::empty());
                assert(out@ =~= base + ser_entries(ov.take(0)));
            }
            while i < entries.len()
                invariant
                    i <= entries@.len(),
                    out@ == base + ser_entries(ov.take(i as int)),
                decreases entries@.len() - i,
            {
                if i > 0 {
                    out.push(',');
                }
                let e = &entries[i];
                out.push('"');
                write_escaped(e.0.as_str(), out);
                out.push('"');
                out.push(':');
                proof {
                    assert(decreases_to!(*v => (*v)->Obj_0));
                    assert((*v)->Obj_0 == *entries);
                    assert(decreases_to!(*entries => entries@));
                    assert(decreases_to!(entries@ => entries@[i as int]));
                    assert(decreases_to!(entries@[i as int] => entries@[i as int].1));
                }
                write_json(&e.1, out);
                proof {
                    assert(ov.take(i as int + 1).drop_last() =~= ov.take(i as int));
                    assert(ov.take(i as int + 1)[i as int] == ov[i as int]);
                    assert(ov.take(i as int + 1).len() == i + 1);
                    if i == 0 {
                        assert(ser_entries(ov.take(1)) == ser_entry(ov[0]));
                    } else {
                        assert(ser_entries(ov.take(i as int + 1)) == ser_entries(ov.take(i as int))
                            + seq![','] + ser_entry(ov[i as int]));
                    }
                    assert(ser_entry(ov[i as int]) == seq!['"'] + esc_seq(e.0@) + seq!['"', ':']
                        + ser(e.1@));
                    assert(out@ =~= base + ser_entries(ov.take(i as int + 1)));
                }
                i += 1;
            }
            out.push('}');
            proof {
                assert(ov.take(entries@.len() as int) =~= ov);
                assert(out@ =~= old(out)@ + ser(v@));
            }
        },
    }
}

/// The JSON text of a document, character by character.
pub fn to_json_chars(v: &JsonValue) -> (r: Vec<char>)
    ensures
        r@ == ser(v@),
{
    let mut out: Vec<char> = Vec::new();
    write_json(v, &mut out);
    proof {
        assert(Seq::<char>::empty() + ser(v@) =~= ser(v@));
    }
    out
}

/// The JSON shape of a filter as the engine's filter grammar has it: an
/// object with the key under "key" and the match value under "match".
pub open spec fn filter_json(f: Filter) -> SpecJson {
    SpecJson::Obj(seq![("key"@, SpecJson::Str(f.key@)), ("match"@, f.value.spec_json())])
}

/// The JSON text of a filter, as the filtered-search request carries it.
pub fn filter_to_json(f: &Filter) -> (r: Vec<char>)
    ensures
        r@ == ser(filter_json(*f)),
{
    let mut entries: Vec<(String, JsonValue)> = Vec::new();
    entries.push((String::from_str("key"), JsonValue::Str(f.key.clone())));
    let mv = match &f.value {
        MatchValue::Bool(b) => JsonValue::Bool(*b),
        MatchValue::Int(i) => JsonValue::Int(*i),
        MatchValue::Str(s) => JsonValue::Str(s.clone()),
    };
    entries.push((String::from_str("match"), mv));
    let doc = JsonValue::Obj(entries);
    proof {
        crate::json::lemma_obj_view(doc->Obj_0@);
        assert(crate::json::obj_view(doc->Obj_0@) =~= filter_json(*f)->Obj_0);
    }
    to_json_chars(&doc)
}

/// The UTF-8 byte length of one character.
pub open spec fn utf8_len(c: char) -> nat {
    if (c as u32) < 0x80 {
        1
    } else if (c as u32) < 0x800 {
        2
    } else if (c as u32) < 0x10000 {
        3
    } else {
        4
    }
}

/// The UTF-8 byte length of a text.
pub open spec fn utf8_len_of(s: Seq<char>) -> nat
    decreases s.len(),
{
    if s.len() == 0 {
        0
    } else {
        utf8_len_of(s.drop_last()) + utf8_len(s.last())
    }
}

/// The UTF-8 byte length of a text, saturating at the machine word.
#[verifier::loop_isolation(false)]
pub fn utf8_byte_len(chars: &Vec<char>) -> (r: usize)
    ensures
        r == (if utf8_len_of(chars@) > usize::MAX {
            usize::MAX as int
        } else {
            utf8_len_of(chars@) as int
        }),
{
    let mut total: usize = 0;
    let mut i: usize = 0;
    proof {
        assert(chars@.take(0) =~= Seq::<char>::empty());
    }
    while i < chars.len()
        invariant
            i <= chars@.len(),
            total == (if utf8_len_of(chars@.take(i as int)) > usize::MAX {
                usize::MAX as int
            } else {
                utf8_len_of(chars@.take(i as int)) as int
            }),
        decreases chars@.len() - i,
    {
        let code = chars[i] as u32;
        let w: usize = if code < 0x80 {
            1
        } else if code < 0x800 {
            2
        } else if code < 0x1_0000 {
            3
        } else {
            4
        };
        total = total.saturating_add(w);
        proof {
            assert(chars@.take(i as int + 1).drop_last() =~= chars@.take(i as int));
            assert(chars@.take(i as int + 1).last() == chars@[i as int]);
            assert(w == utf8_len(chars@[i as int]));
            assert(utf8_len_of(chars@.take(i as int + 1)) == utf8_len_of(chars@.take(i as int))
                + utf8_len(chars@[i as int]));
        }
        i += 1;
    }
    proof {
        assert(chars@.take(chars@.len() as int) =~= chars@);
    }
    total
}

} // verus!
