use vstd::prelude::*;
use vstd::utf8::{encode_utf8, decode_utf8, valid_utf8};
use vstd::slice::slice_subrange;
use vstd::string::{StringExecFns, StrSliceExecFns};
use crate::error::{Error, ErrorKind};
use crate::value::{Value, ValueView, value_view, seq_view, entries_view, lemma_seq_view_index, lemma_entries_view_index};

verus! {

// The compact, self-describing binary format shared byte-for-byte by host and
// guest: a value is a one-byte header, an optional big-endian extension of
// that header, and the value's contents. The encoder always emits the
// shortest form; the decoder also accepts the wider integer forms.

/// Big-endian bytes of a 16-bit header extension.
pub open spec fn be16(x: u16) -> Seq<u8> {
    seq![(x / 0x100) as u8, (x % 0x100) as u8]
}

/// Big-endian bytes of a 32-bit header extension.
pub open spec fn be32(x: u32) -> Seq<u8> {
    seq![
        (x / 0x1000000) as u8,
        ((x / 0x10000) % 0x100) as u8,
        ((x / 0x100) % 0x100) as u8,
        (x % 0x100) as u8,
    ]
}

/// Big-endian bytes of a 64-bit header extension.
pub open spec fn be64(x: u64) -> Seq<u8> {
    seq![
        (x / 0x100000000000000) as u8,
        ((x / 0x1000000000000) % 0x100) as u8,
        ((x / 0x10000000000) % 0x100) as u8,
        ((x / 0x100000000) % 0x100) as u8,
        ((x / 0x1000000) % 0x100) as u8,
        ((x / 0x10000) % 0x100) as u8,
        ((x / 0x100) % 0x100) as u8,
        (x % 0x100) as u8,
    ]
}

/// Shortest encoding of a signed integer: single-byte forms for small
/// values, then 8-, 16-, 32- and 64-bit forms, unsigned for non-negative
/// values and two's-complement for negative ones.
pub open spec fn int_encoding(i: int) -> Seq<u8>
    recommends
        i64::MIN <= i <= i64::MAX,
{
    if 0 <= i < 0x80 {
        seq![i as u8]
    } else if 0x80 <= i < 0x100 {
        seq![0xccu8, i as u8]
    } else if 0x100 <= i < 0x10000 {
        seq![0xcdu8] + be16(i as u16)
    } else if 0x10000 <= i < 0x100000000 {
        seq![0xceu8] + be32(i as u32)
    } else if i >= 0x100000000 {
        seq![0xcfu8] + be64(i as u64)
    } else if -0x20 <= i < 0 {
        seq![(i + 0x100) as u8]
    } else if -0x80 <= i < -0x20 {
        seq![0xd0u8, (i + 0x100) as u8]
    } else if -0x8000 <= i < -0x80 {
        seq![0xd1u8] + be16((i + 0x10000) as u16)
    } else if -0x80000000 <= i < -0x8000 {
        seq![0xd2u8] + be32((i + 0x100000000) as u32)
    } else {
        seq![0xd3u8] + be64((i + 0x10000000000000000) as u64)
    }
}

/// Header of a string of `n` content bytes.
pub open spec fn str_header(n: int) -> Seq<u8>
    recommends
        0 <= n <= u32::MAX,
{
    if n < 0x20 {
        seq![(0xa0 + n) as u8]
    } else if n < 0x100 {
        seq![0xd9u8, n as u8]
    } else if n < 0x10000 {
        seq![0xdau8] + be16(n as u16)
    } else {
        seq![0xdbu8] + be32(n as u32)
    }
}

/// Encoding of a string: header over the byte length of its UTF-8 form,
/// then that form.
pub open spec fn str_encoding(s: Seq<char>) -> Seq<u8>
    recommends
        encode_utf8(s).len() <= u32::MAX,
{
    str_header(encode_utf8(s).len() as int) + encode_utf8(s)
}

/// Header of an array of `n` elements.
pub open spec fn arr_header(n: int) -> Seq<u8>
    recommends
        0 <= n <= u32::MAX,
{
    if n < 0x10 {
        seq![(0x90 + n) as u8]
    } else if n < 0x10000 {
        seq![0xdcu8] + be16(n as u16)
    } else {
        seq![0xddu8] + be32(n as u32)
    }
}

/// Header of a map of `n` key-value entries.
pub open spec fn map_header(n: int) -> Seq<u8>
    recommends
        0 <= n <= u32::MAX,
{
    if n < 0x10 {
        seq![(0x80 + n) as u8]
    } else if n < 0x10000 {
        seq![0xdeu8] + be16(n as u16)
    } else {
        seq![0xdfu8] + be32(n as u32)
    }
}

/// The canonical encoding of a value.
pub open spec fn encoding(v: ValueView) -> Seq<u8>
    recommends
        encodable(v),
    decreases v,
{
    match v {
        ValueView::Null => seq![0xc0u8],
        ValueView::Bool(b) => if b {
            seq![0xc3u8]
        } else {
            seq![0xc2u8]
        },
        ValueView::Int(i) => int_encoding(i),
        ValueView::Str(s) => str_encoding(s),
        ValueView::Arr(es) => arr_header(es.len() as int) + encoding_seq(es),
        ValueView::Object(es) => map_header(es.len() as int) + encoding_entries(es),
    }
}

/// The concatenated encodings of a sequence of values.
pub open spec fn encoding_seq(es: Seq<ValueView>) -> Seq<u8>
    decreases es,
{
    if es.len() == 0 {
        Seq::empty()
    } else {
        encoding(es[0]) + encoding_seq(es.drop_first())
    }
}

/// The encoding of one map entry: the key string, then the value.
pub open spec fn encoding_entry(e: (Seq<char>, ValueView)) -> Seq<u8>
    decreases e,
{
    str_encoding(e.0) + encoding(e.1)
}

/// The concatenated encodings of a sequence of map entries.
pub open spec fn encoding_entries(es: Seq<(Seq<char>, ValueView)>) -> Seq<u8>
    decreases es,
{
    if es.len() == 0 {
        Seq::empty()
    } else {
        encoding_entry(es[0]) + encoding_entries(es.drop_first())
    }
}

/// Whether a value fits the format at all: every integer fits 64 bits,
/// every string's UTF-8 form and every array and map length fits the
/// 32-bit headers.
pub open spec fn encodable(v: ValueView) -> bool
    decreases v,
{
    match v {
        ValueView::Null => true,
        ValueView::Bool(_) => true,
        ValueView::Int(i) => i64::MIN <= i <= i64::MAX,
        ValueView::Str(s) => encode_utf8(s).len() <= u32::MAX,
        ValueView::Arr(es) => es.len() <= u32::MAX && (forall|i: int|
            0 <= i < es.len() ==> encodable(#[trigger] es[i])),
        ValueView::Object(es) => es.len() <= u32::MAX && (forall|i: int|
            0 <= i < es.len() ==> encode_utf8((#[trigger] es[i]).0).len() <= u32::MAX
                && encodable(es[i].1)),
    }
}

// The decoder's model: a partial parse function from bytes to one value and
// the remaining bytes. Beyond the canonical forms above it also accepts
// wider integer forms than necessary, as the format allows an encoder to
// emit them; everything else (raw binary, extensions, floating point) is
// outside this library's value model and fails the parse.

/// Value of 2 big-endian bytes.
pub open spec fn be16_val(b: Seq<u8>) -> int
    recommends
        b.len() == 2,
{
    b[0] * 0x100 + b[1]
}

/// Value of 4 big-endian bytes.
pub open spec fn be32_val(b: Seq<u8>) -> int
    recommends
        b.len() == 4,
{
    b[0] * 0x1000000 + b[1] * 0x10000 + b[2] * 0x100 + b[3]
}

/// Value of 8 big-endian bytes.
pub open spec fn be64_val(b: Seq<u8>) -> int
    recommends
        b.len() == 8,
{
    b[0] * 0x100000000000000 + b[1] * 0x1000000000000 + b[2] * 0x10000000000 + b[3] * 0x100000000
        + b[4] * 0x1000000 + b[5] * 0x10000 + b[6] * 0x100 + b[7]
}

/// Parses `n` content bytes of a string: they must be present and valid
/// UTF-8.
pub open spec fn dec_str(b: Seq<u8>, n: int) -> Option<(ValueView, Seq<u8>)> {
    if 0 <= n <= b.len() && valid_utf8(b.take(n)) {
        Option::Some((ValueView::Str(decode_utf8(b.take(n))), b.skip(n)))
    } else {
        Option::None
    }
}

/// Parses one value off the front of `b`, yielding it and the rest.
pub open spec fn dec_value(b: Seq<u8>) -> Option<(ValueView, Seq<u8>)>
    decreases b.len(), 0int,
{
    if b.len() == 0 {
        Option::None
    } else {
        let h = b[0];
        if h < 0x80 {
            Option::Some((ValueView::Int(h as int), b.drop_first()))
        } else if h >= 0xe0 {
            Option::Some((ValueView::Int(h as int - 0x100), b.drop_first()))
        } else if h < 0x90 {
            match dec_entries(b.drop_first(), h as int - 0x80) {
                Option::Some((es, rest)) => Option::Some((ValueView::Object(es), rest)),
                Option::None => Option::None,
            }
        } else if h < 0xa0 {
            match dec_seq(b.drop_first(), h as int - 0x90) {
                Option::Some((es, rest)) => Option::Some((ValueView::Arr(es), rest)),
                Option::None => Option::None,
            }
        } else if h < 0xc0 {
            dec_str(b.drop_first(), h as int - 0xa0)
        } else if h == 0xc0 {
            Option::Some((ValueView::Null, b.drop_first()))
        } else if h == 0xc2 {
            Option::Some((ValueView::Bool(false), b.drop_first()))
        } else if h == 0xc3 {
            Option::Some((ValueView::Bool(true), b.drop_first()))
        } else if h == 0xcc && b.len() >= 2 {
            Option::Some((ValueView::Int(b[1] as int), b.skip(2)))
        } else if h == 0xcd && b.len() >= 3 {
            Option::Some((ValueView::Int(be16_val(b.subrange(1, 3))), b.skip(3)))
        } else if h == 0xce && b.len() >= 5 {
            Option::Some((ValueView::Int(be32_val(b.subrange(1, 5))), b.skip(5)))
        } else if h == 0xcf && b.len() >= 9 {
            if be64_val(b.subrange(1, 9)) <= i64::MAX {
                Option::Some((ValueView::Int(be64_val(b.subrange(1, 9))), b.skip(9)))
            } else {
                Option::None
            }
        } else if h == 0xd0 && b.len() >= 2 {
            let v = b[1] as int;
            Option::Some((ValueView::Int(if v >= 0x80 { v - 0x100 } else { v }), b.skip(2)))
        } else if h == 0xd1 && b.len() >= 3 {
            let v = be16_val(b.subrange(1, 3));
            Option::Some((ValueView::Int(if v >= 0x8000 { v - 0x10000 } else { v }), b.skip(3)))
        } else if h == 0xd2 && b.len() >= 5 {
            let v = be32_val(b.subrange(1, 5));
            Option::Some(
                (ValueView::Int(if v >= 0x80000000 { v - 0x100000000 } else { v }), b.skip(5)),
            )
        } else if h == 0xd3 && b.len() >= 9 {
            let v = be64_val(b.subrange(1, 9));
            Option::Some(
                (
                    ValueView::Int(
                        if v >= 0x8000000000000000 { v - 0x10000000000000000 } else { v },
                    ),
                    b.skip(9),
                ),
            )
        } else if h == 0xd9 && b.len() >= 2 {
            dec_str(b.skip(2), b[1] as int)
        } else if h == 0xda && b.len() >= 3 {
            dec_str(b.skip(3), be16_val(b.subrange(1, 3)))
        } else if h == 0xdb && b.len() >= 5 {
            dec_str(b.skip(5), be32_val(b.subrange(1, 5)))
        } else if h == 0xdc && b.len() >= 3 {
            match dec_seq(b.skip(3), be16_val(b.subrange(1, 3))) {
                Option::Some((es, rest)) => Option::Some((ValueView::Arr(es), rest)),
                Option::None => Option::None,
            }
        } else if h == 0xdd && b.len() >= 5 {
            match dec_seq(b.skip(5), be32_val(b.subrange(1, 5))) {
                Option::Some((es, rest)) => Option::Some((ValueView::Arr(es), rest)),
                Option::None => Option::None,
            }
        } else if h == 0xde && b.len() >= 3 {
            match dec_entries(b.skip(3), be16_val(b.subrange(1, 3))) {
                Option::Some((es, rest)) => Option::Some((ValueView::Object(es), rest)),
                Option::None => Option::None,
            }
        } else if h == 0xdf && b.len() >= 5 {
            match dec_entries(b.skip(5), be32_val(b.subrange(1, 5))) {
                Option::Some((es, rest)) => Option::Some((ValueView::Object(es), rest)),
                Option::None => Option::None,
            }
        } else {
            Option::None
        }
    }
}

/// Parses `n` values off the front of `b`.
pub open spec fn dec_seq(b: Seq<u8>, n: int) -> Option<(Seq<ValueView>, Seq<u8>)>
    decreases b.len(), 1int,
{
    if n <= 0 {
        Option::Some((Seq::empty(), b))
    } else {
        match dec_value(b) {
            Option::Some((v, rest)) => {
                if rest.len() < b.len() {
                    match dec_seq(rest, n - 1) {
                        Option::Some((vs, rest2)) => Option::Some((seq![v] + vs, rest2)),
                        Option::None => Option::None,
                    }
                } else {
                    Option::None
                }
            },
            Option::None => Option::None,
        }
    }
}

/// Parses `n` key-value entries off the front of `b`; every key must be a
/// string.
pub open spec fn dec_entries(b: Seq<u8>, n: int) -> Option<
    (Seq<(Seq<char>, ValueView)>, Seq<u8>),
>
    decreases b.len(), 1int,
{
    if n <= 0 {
        Option::Some((Seq::empty(), b))
    } else {
        match dec_value(b) {
            Option::Some((ValueView::Str(k), rest1)) => {
                if rest1.len() < b.len() {
                    match dec_value(rest1) {
                        Option::Some((v, rest2)) => {
                            if rest2.len() < b.len() {
                                match dec_entries(rest2, n - 1) {
                                    Option::Some((es, rest3)) => Option::Some(
                                        (seq![(k, v)] + es, rest3),
                                    ),
                                    Option::None => Option::None,
                                }
                            } else {
                                Option::None
                            }
                        },
                        Option::None => Option::None,
                    }
                } else {
                    Option::None
                }
            },
            _ => Option::None,
        }
    }
}

fn push_be16(out: &mut Vec<u8>, x: u16)
    ensures
        final(out)@ == old(out)@ + be16(x),
{
    out.push((x / 0x100) as u8);
    out.push((x % 0x100) as u8);
    proof {
        assert(out@ =~= old(out)@ + be16(x));
    }
}

fn push_be32(out: &mut Vec<u8>, x: u32)
    ensures
        final(out)@ == old(out)@ + be32(x),
{
    out.push((x / 0x1000000) as u8);
    out.push(((x / 0x10000) % 0x100) as u8);
    out.push(((x / 0x100) % 0x100) as u8);
    out.push((x % 0x100) as u8);
    proof {
        assert(out@ =~= old(out)@ + be32(x));
    }
}

fn push_be64(out: &mut Vec<u8>, x: u64)
    ensures
        final(out)@ == old(out)@ + be64(x),
{
    out.push((x / 0x100000000000000) as u8);
    out.push(((x / 0x1000000000000) % 0x100) as u8);
    out.push(((x / 0x10000000000) % 0x100) as u8);
    out.push(((x / 0x100000000) % 0x100) as u8);
    out.push(((x / 0x1000000) % 0x100) as u8);
    out.push(((x / 0x10000) % 0x100) as u8);
    out.push(((x / 0x100) % 0x100) as u8);
    out.push((x % 0x100) as u8);
    proof {
        assert(out@ =~= old(out)@ + be64(x));
    }
}

fn push_int(out: &mut Vec<u8>, x: i64)
    ensures
        final(out)@ == old(out)@ + int_encoding(x as int),
{
    if x >= 0 {
        if x < 0x80 {
            out.push(x as u8);
            proof {
                assert(out@ =~= old(out)@ + int_encoding(x as int));
            }
        } else if x < 0x100 {
            out.push(0xcc);
            out.push(x as u8);
            proof {
                assert(out@ =~= old(out)@ + int_encoding(x as int));
            }
        } else if x < 0x10000 {
            out.push(0xcd);
            push_be16(out, x as u16);
            proof {
                assert(out@ =~= old(out)@ + int_encoding(x as int));
            }
        } else if x < 0x100000000 {
            out.push(0xce);
            push_be32(out, x as u32);
            proof {
                assert(out@ =~= old(out)@ + int_encoding(x as int));
            }
        } else {
            out.push(0xcf);
            push_be64(out, x as u64);
            proof {
                assert(out@ =~= old(out)@ + int_encoding(x as int));
            }
        }
    } else {
        if x >= -0x20 {
            out.push((x + 0x100) as u8);
            proof {
                assert(out@ =~= old(out)@ + int_encoding(x as int));
            }
        } else if x >= -0x80 {
            out.push(0xd0);
            out.push((x + 0x100) as u8);
            proof {
                assert(out@ =~= old(out)@ + int_encoding(x as int));
            }
        } else if x >= -0x8000 {
            out.push(0xd1);
            push_be16(out, (x + 0x10000) as u16);
            proof {
                assert(out@ =~= old(out)@ + int_encoding(x as int));
            }
        } else if x >= -0x80000000 {
            out.push(0xd2);
            push_be32(out, (x + 0x100000000) as u32);
            proof {
                assert(out@ =~= old(out)@ + int_encoding(x as int));
            }
        } else {
            out.push(0xd3);
            push_be64(out, ((x as i128) + 0x10000000000000000) as u64);
            proof {
                assert(out@ =~= old(out)@ + int_encoding(x as int));
            }
        }
    }
}

fn push_str_header(out: &mut Vec<u8>, n: u32)
    ensures
        final(out)@ == old(out)@ + str_header(n as int),
{
    if n < 0x20 {
        out.push((0xa0 + n) as u8);
    } else if n < 0x100 {
        out.push(0xd9);
        out.push(n as u8);
    } else if n < 0x10000 {
        out.push(0xda);
        push_be16(out, n as u16);
    } else {
        out.push(0xdb);
        push_be32(out, n);
    }
    proof {
        assert(out@ =~= old(out)@ + str_header(n as int));
    }
}

fn push_arr_header(out: &mut Vec<u8>, n: u32)
    ensures
        final(out)@ == old(out)@ + arr_header(n as int),
{
    if n < 0x10 {
        out.push((0x90 + n) as u8);
    } else if n < 0x10000 {
        out.push(0xdc);
        push_be16(out, n as u16);
    } else {
        out.push(0xdd);
        push_be32(out, n);
    }
    proof {
        assert(out@ =~= old(out)@ + arr_header(n as int));
    }
}

fn push_map_header(out: &mut Vec<u8>, n: u32)
    ensures
        final(out)@ == old(out)@ + map_header(n as int),
{
    if n < 0x10 {
        out.push((0x80 + n) as u8);
    } else if n < 0x10000 {
        out.push(0xde);
        push_be16(out, n as u16);
    } else {
        out.push(0xdf);
        push_be32(out, n);
    }
    proof {
        assert(out@ =~= old(out)@ + map_header(n as int));
    }
}

/// Appends the encoding of a string: header over its UTF-8 byte length,
/// then those bytes. Fails only when the byte length overflows the header.
fn push_str(out: &mut Vec<u8>, s: &String) -> (ok: bool)
    ensures
        ok == (encode_utf8(s@).len() <= u32::MAX),
        ok ==> final(out)@ == old(out)@ + str_encoding(s@),
{
    let bytes = s.as_str().as_bytes_vec();
    if bytes.len() > u32::MAX as usize {
        return false;
    }
    push_str_header(out, bytes.len() as u32);
    let ghost mid = out@;
    for i in 0..bytes.len()
        invariant
            bytes@ == encode_utf8(s@),
            out@ == mid + bytes@.subrange(0, i as int),
    {
        out.push(bytes[i]);
        proof {
            assert(out@ =~= mid + bytes@.subrange(0, i + 1 as int));
        }
    }
    proof {
        assert(bytes@.subrange(0, bytes@.len() as int) =~= bytes@);
        assert(out@ =~= old(out)@ + str_encoding(s@));
    }
    true
}

proof fn lemma_encoding_seq_snoc(es: Seq<ValueView>, i: int)
    requires
        0 <= i < es.len(),
    ensures
        encoding_seq(es.take(i + 1)) == encoding_seq(es.take(i)) + encoding(es[i]),
    decreases i,
{
    if i == 0 {
        let t = es.take(1);
        assert(t.len() == 1);
        assert(t[0] == es[0]);
        assert(t.drop_first() =~= Seq::<ValueView>::empty());
        assert(encoding_seq(t.drop_first()) == Seq::<u8>::empty());
        assert(encoding_seq(t) == encoding(t[0]) + encoding_seq(t.drop_first()));
        assert(encoding_seq(t) =~= encoding(es[0]));
        assert(encoding_seq(es.take(0)) =~= Seq::<u8>::empty());
    } else {
        lemma_encoding_seq_snoc(es.drop_first(), i - 1);
        assert(es.take(i + 1).drop_first() =~= es.drop_first().take(i));
        assert(es.take(i).drop_first() =~= es.drop_first().take(i - 1));
        assert(es.take(i + 1)[0] == es[0]);
        assert(es.take(i)[0] == es[0]);
        assert(es.drop_first()[i - 1] == es[i]);
        assert(encoding_seq(es.take(i + 1)) =~= encoding_seq(es.take(i)) + encoding(es[i]));
    }
}

proof fn lemma_encoding_entries_snoc(es: Seq<(Seq<char>, ValueView)>, i: int)
    requires
        0 <= i < es.len(),
    ensures
        encoding_entries(es.take(i + 1)) == encoding_entries(es.take(i)) + encoding_entry(es[i]),
    decreases i,
{
    if i == 0 {
        let t = es.take(1);
        assert(t.len() == 1);
        assert(t[0] == es[0]);
        assert(t.drop_first() =~= Seq::<(Seq<char>, ValueView)>::empty());
        assert(encoding_entries(t.drop_first()) == Seq::<u8>::empty());
        assert(encoding_entries(t) == encoding_entry(t[0]) + encoding_entries(t.drop_first()));
        assert(encoding_entries(t) =~= encoding_entry(es[0]));
        assert(encoding_entries(es.take(0)) =~= Seq::<u8>::empty());
    } else {
        lemma_encoding_entries_snoc(es.drop_first(), i - 1);
        assert(es.take(i + 1).drop_first() =~= es.drop_first().take(i));
        assert(es.take(i).drop_first() =~= es.drop_first().take(i - 1));
        assert(es.take(i + 1)[0] == es[0]);
        assert(es.take(i)[0] == es[0]);
        assert(es.drop_first()[i - 1] == es[i]);
        assert(encoding_entries(es.take(i + 1)) =~= encoding_entries(es.take(i))
            + encoding_entry(es[i]));
    }
}

/// Appends the encoding of `v` to `out`; `false` reports a value outside
/// the format, with `out` then in an unspecified partial state that the
/// caller discards.
#[verifier::loop_isolation(false)]
#[verifier::rlimit(80)]
fn encode_into(v: &Value, out: &mut Vec<u8>) -> (ok: bool)
    ensures
        ok == encodable(v@),
        ok ==> final(out)@ == old(out)@ + encoding(v@),
    decreases *v,
{
    match v {
        Value::Null => {
            out.push(0xc0);
            proof {
                assert(out@ =~= old(out)@ + encoding(v@));
            }
            true
        },
        Value::Bool(b) => {
            out.push(if *b { 0xc3 } else { 0xc2 });
            proof {
                assert(out@ =~= old(out)@ + encoding(v@));
            }
            true
        },
        Value::Int(x) => {
            push_int(out, *x);
            true
        },
        Value::Str(s) => push_str(out, s),
        Value::Arr(elems) => {
            proof {
                lemma_seq_view_index(elems@);
                assert(v@ == ValueView::Arr(seq_view(elems@)));
            }
            if elems.len() > u32::MAX as usize {
                proof {
                    assert(!encodable(v@));
                }
                return false;
            }
            let ghost es = seq_view(elems@);
            push_arr_header(out, elems.len() as u32);
            let ghost mid = out@;
            let n = elems.len();
            for i in 0..n
                invariant
                    n == elems@.len(),
                    es == seq_view(elems@),
                    es.len() == elems@.len() <= u32::MAX,
                    forall|j: int| 0 <= j < es.len() ==> es[j] == value_view(#[trigger] elems@[j]),
                    out@ == mid + encoding_seq(es.take(i as int)),
                    forall|j: int| 0 <= j < i ==> encodable(#[trigger] es[j]),
            {
                proof {
                    assert(*elems == v->Arr_0);
                    assert(decreases_to!(*v => v->Arr_0));
                    assert(decreases_to!(*elems => elems@));
                    assert(decreases_to!(elems@ => elems@[i as int]));
                }
                if !encode_into(&elems[i], out) {
                    return false;
                }
                proof {
                    lemma_encoding_seq_snoc(es, i as int);
                }
            }
            proof {
                assert(es.take(es.len() as int) =~= es);
                assert(out@ =~= old(out)@ + encoding(v@));
            }
            true
        },
        Value::Object(entries) => {
            proof {
                lemma_entries_view_index(entries@);
                assert(v@ == ValueView::Object(entries_view(entries@)));
            }
            if entries.len() > u32::MAX as usize {
                proof {
                    assert(!encodable(v@));
                }
                return false;
            }
            let ghost es = entries_view(entries@);
            push_map_header(out, entries.len() as u32);
            let ghost mid = out@;
            let n = entries.len();
            for i in 0..n
                invariant
                    n == entries@.len(),
                    es == entries_view(entries@),
                    es.len() == entries@.len() <= u32::MAX,
                    forall|j: int| 0 <= j < es.len()
                        ==> es[j] == ((#[trigger] entries@[j]).0@, value_view(entries@[j].1)),
                    out@ == mid + encoding_entries(es.take(i as int)),
                    forall|j: int| 0 <= j < i
                        ==> encode_utf8((#[trigger] es[j]).0).len() <= u32::MAX
                            && encodable(es[j].1),
            {
                if !push_str(out, &entries[i].0) {
                    return false;
                }
                proof {
                    assert(*entries == v->Object_0);
                    assert(decreases_to!(*v => v->Object_0));
                    assert(decreases_to!(*entries => entries@));
                    assert(decreases_to!(entries@ => entries@[i as int]));
                    assert(decreases_to!(entries@[i as int] => entries@[i as int].1));
                }
                if !encode_into(&entries[i].1, out) {
                    return false;
                }
                proof {
                    lemma_encoding_entries_snoc(es, i as int);
                }
            }
            proof {
                assert(es.take(es.len() as int) =~= es);
                assert(out@ =~= old(out)@ + encoding(v@));
            }
            true
        },
    }
}

/// Encodes a value into the compact binary format, rejecting the rare value
/// whose strings or collections overflow the format's length headers.
pub fn encode(v: &Value) -> (r: Result<Vec<u8>, Error>)
    ensures
        match r {
            Ok(b) => encodable(v@) && b@ == encoding(v@),
            Err(e) => !encodable(v@) && e.kind == ErrorKind::Serialization,
        },
{
    let mut out: Vec<u8> = Vec::new();
    if encode_into(v, &mut out) {
        Ok(out)
    } else {
        Err(Error::new(
            ErrorKind::Serialization,
            String::from_str("value does not fit the wire format"),
        ))
    }
}

/// What a complete byte sequence decodes to: one value filling the whole
/// input, or nothing.
pub open spec fn decoded(b: Seq<u8>) -> Option<ValueView> {
    match dec_value(b) {
        Option::Some((v, rest)) => if rest.len() == 0 {
            Option::Some(v)
        } else {
            Option::None
        },
        Option::None => Option::None,
    }
}

/// Relies on String::from_utf8: it accepts exactly the valid UTF-8 byte
/// sequences and returns the string of those bytes.
#[verifier::external_body]
fn bytes_to_string(v: Vec<u8>) -> (r: Option<String>)
    ensures
        match r {
            Option::Some(s) => valid_utf8(v@) && encode_utf8(s@) == v@,
            Option::None => !valid_utf8(v@),
        },
{
    String::from_utf8(v).ok()
}

fn read_be16(bytes: &Vec<u8>, pos: usize) -> (r: u16)
    requires
        pos + 2 <= bytes@.len(),
        bytes@.len() <= usize::MAX,
    ensures
        r as int == be16_val(bytes@.subrange(pos as int, pos + 2)),
{
    let r = bytes[pos] as u16 * 0x100 + bytes[pos + 1] as u16;
    proof {
        let b = bytes@.subrange(pos as int, pos + 2);
        assert(b[0] == bytes@[pos as int] && b[1] == bytes@[pos + 1]);
    }
    r
}

fn read_be32(bytes: &Vec<u8>, pos: usize) -> (r: u32)
    requires
        pos + 4 <= bytes@.len(),
        bytes@.len() <= usize::MAX,
    ensures
        r as int == be32_val(bytes@.subrange(pos as int, pos + 4)),
{
    let r = bytes[pos] as u32 * 0x1000000 + bytes[pos + 1] as u32 * 0x10000 + bytes[pos + 2] as u32
        * 0x100 + bytes[pos + 3] as u32;
    proof {
        let b = bytes@.subrange(pos as int, pos + 4);
        assert(b[0] == bytes@[pos as int] && b[1] == bytes@[pos + 1] && b[2] == bytes@[pos + 2]
            && b[3] == bytes@[pos + 3]);
    }
    r
}

fn read_be64(bytes: &Vec<u8>, pos: usize) -> (r: u64)
    requires
        pos + 8 <= bytes@.len(),
        bytes@.len() <= usize::MAX,
    ensures
        r as int == be64_val(bytes@.subrange(pos as int, pos + 8)),
{
    let r = bytes[pos] as u64 * 0x100000000000000 + bytes[pos + 1] as u64 * 0x1000000000000
        + bytes[pos + 2] as u64 * 0x10000000000 + bytes[pos + 3] as u64 * 0x100000000 + bytes[pos
        + 4] as u64 * 0x1000000 + bytes[pos + 5] as u64 * 0x10000 + bytes[pos + 6] as u64 * 0x100
        + bytes[pos + 7] as u64;
    proof {
        let b = bytes@.subrange(pos as int, pos + 8);
        assert(b[0] == bytes@[pos as int] && b[1] == bytes@[pos + 1] && b[2] == bytes@[pos + 2]
            && b[3] == bytes@[pos + 3] && b[4] == bytes@[pos + 4] && b[5] == bytes@[pos + 5]
            && b[6] == bytes@[pos + 6] && b[7] == bytes@[pos + 7]);
    }
    r
}

/// Parses `n` string content bytes at `pos`.
#[verifier::loop_isolation(false)]
fn parse_str_at(bytes: &Vec<u8>, pos: usize, n: usize) -> (r: Result<(Value, usize), ()>)
    requires
        pos <= bytes@.len(),
    ensures
        match r {
            Ok((v, end)) => pos <= end <= bytes@.len() && dec_str(bytes@.skip(pos as int), n as int)
                == Option::Some((v@, bytes@.skip(end as int))),
            Err(_) => dec_str(bytes@.skip(pos as int), n as int) is None,
        },
{
    let ghost b = bytes@.skip(pos as int);
    if n > bytes.len() - pos {
        return Err(());
    }
    let content = vstd::slice::slice_to_vec(slice_subrange(bytes.as_slice(), pos, pos + n));
    proof {
        assert(content@ =~= b.take(n as int));
    }
    match bytes_to_string(content) {
        Option::Some(s) => {
            proof {
                vstd::utf8::encode_utf8_decode_utf8(s@);
                assert(b.skip(n as int) =~= bytes@.skip(pos + n));
            }
            Ok((Value::Str(s), pos + n))
        },
        Option::None => Err(()),
    }
}

/// Parses one value at `pos`, mirroring the parse model branch for branch.
#[verifier::loop_isolation(false)]
#[verifier::rlimit(100)]
fn parse_value(bytes: &Vec<u8>, pos: usize) -> (r: Result<(Value, usize), ()>)
    requires
        pos <= bytes@.len(),
    ensures
        match r {
            Ok((v, end)) => pos < end <= bytes@.len() && dec_value(bytes@.skip(pos as int))
                == Option::Some((v@, bytes@.skip(end as int))),
            Err(_) => dec_value(bytes@.skip(pos as int)) is None,
        },
    decreases bytes@.len() - pos, 0int, 0int,
{
    let ghost b = bytes@.skip(pos as int);
    if pos == bytes.len() {
        return Err(());
    }
    let h = bytes[pos];
    proof {
        assert(b[0] == h);
        assert(b.drop_first() =~= bytes@.skip(pos + 1));
    }
    if h < 0x80 {
        Ok((Value::Int(h as i64), pos + 1))
    } else if h >= 0xe0 {
        Ok((Value::Int(h as i64 - 0x100), pos + 1))
    } else if h < 0x90 {
        match parse_entries(bytes, pos + 1, (h - 0x80) as usize) {
            Ok((es, end)) => Ok((Value::Object(es), end)),
            Err(_) => Err(()),
        }
    } else if h < 0xa0 {
        match parse_seq(bytes, pos + 1, (h - 0x90) as usize) {
            Ok((es, end)) => Ok((Value::Arr(es), end)),
            Err(_) => Err(()),
        }
    } else if h < 0xc0 {
        parse_str_at(bytes, pos + 1, (h - 0xa0) as usize)
    } else if h == 0xc0 {
        Ok((Value::Null, pos + 1))
    } else if h == 0xc2 {
        Ok((Value::Bool(false), pos + 1))
    } else if h == 0xc3 {
        Ok((Value::Bool(true), pos + 1))
    } else if h == 0xcc && bytes.len() - pos >= 2 {
        proof {
            assert(b.skip(2) =~= bytes@.skip(pos + 2));
        }
        Ok((Value::Int(bytes[pos + 1] as i64), pos + 2))
    } else if h == 0xcd && bytes.len() - pos >= 3 {
        let v = read_be16(bytes, pos + 1);
        proof {
            assert(bytes@.subrange(pos + 1, pos + 3) =~= b.subrange(1, 3));
            assert(b.skip(3) =~= bytes@.skip(pos + 3));
        }
        Ok((Value::Int(v as i64), pos + 3))
    } else if h == 0xce && bytes.len() - pos >= 5 {
        let v = read_be32(bytes, pos + 1);
        proof {
            assert(bytes@.subrange(pos + 1, pos + 5) =~= b.subrange(1, 5));
            assert(b.skip(5) =~= bytes@.skip(pos + 5));
        }
        Ok((Value::Int(v as i64), pos + 5))
    } else if h == 0xcf && bytes.len() - pos >= 9 {
        let v = read_be64(bytes, pos + 1);
        proof {
            assert(bytes@.subrange(pos + 1, pos + 9) =~= b.subrange(1, 9));
            assert(b.skip(9) =~= bytes@.skip(pos + 9));
        }
        if v > i64::MAX as u64 {
            return Err(());
        }
        Ok((Value::Int(v as i64), pos + 9))
    } else if h == 0xd0 && bytes.len() - pos >= 2 {
        proof {
            assert(b.skip(2) =~= bytes@.skip(pos + 2));
        }
        let raw = bytes[pos + 1] as i64;
        Ok((Value::Int(if raw >= 0x80 { raw - 0x100 } else { raw }), pos + 2))
    } else if h == 0xd1 && bytes.len() - pos >= 3 {
        let v = read_be16(bytes, pos + 1) as i64;
        proof {
            assert(bytes@.subrange(pos + 1, pos + 3) =~= b.subrange(1, 3));
            assert(b.skip(3) =~= bytes@.skip(pos + 3));
        }
        Ok((Value::Int(if v >= 0x8000 { v - 0x10000 } else { v }), pos + 3))
    } else if h == 0xd2 && bytes.len() - pos >= 5 {
        let v = read_be32(bytes, pos + 1) as i64;
        proof {
            assert(bytes@.subrange(pos + 1, pos + 5) =~= b.subrange(1, 5));
            assert(b.skip(5) =~= bytes@.skip(pos + 5));
        }
        Ok((Value::Int(if v >= 0x80000000 { v - 0x100000000 } else { v }), pos + 5))
    } else if h == 0xd3 && bytes.len() - pos >= 9 {
        let v = read_be64(bytes, pos + 1);
        proof {
            assert(bytes@.subrange(pos + 1, pos + 9) =~= b.subrange(1, 9));
            assert(b.skip(9) =~= bytes@.skip(pos + 9));
        }
        let signed: i64 = if v >= 0x8000000000000000 {
            -((u64::MAX - v) as i64) - 1
        } else {
            v as i64
        };
        Ok((Value::Int(signed), pos + 9))
    } else if h == 0xd9 && bytes.len() - pos >= 2 {
        proof {
            assert(b.skip(2) =~= bytes@.skip(pos + 2));
        }
        parse_str_at(bytes, pos + 2, bytes[pos + 1] as usize)
    } else if h == 0xda && bytes.len() - pos >= 3 {
        let n = read_be16(bytes, pos + 1);
        proof {
            assert(bytes@.subrange(pos + 1, pos + 3) =~= b.subrange(1, 3));
            assert(b.skip(3) =~= bytes@.skip(pos + 3));
        }
        parse_str_at(bytes, pos + 3, n as usize)
    } else if h == 0xdb && bytes.len() - pos >= 5 {
        let n = read_be32(bytes, pos + 1);
        proof {
            assert(bytes@.subrange(pos + 1, pos + 5) =~= b.subrange(1, 5));
            assert(b.skip(5) =~= bytes@.skip(pos + 5));
        }
        if n > u32::MAX {
            return Err(());
        }
        parse_str_at(bytes, pos + 5, n as usize)
    } else if h == 0xdc && bytes.len() - pos >= 3 {
        let n = read_be16(bytes, pos + 1);
        proof {
            assert(bytes@.subrange(pos + 1, pos + 3) =~= b.subrange(1, 3));
            assert(b.skip(3) =~= bytes@.skip(pos + 3));
        }
        match parse_seq(bytes, pos + 3, n as usize) {
            Ok((es, end)) => Ok((Value::Arr(es), end)),
            Err(_) => Err(()),
        }
    } else if h == 0xdd && bytes.len() - pos >= 5 {
        let n = read_be32(bytes, pos + 1);
        proof {
            assert(bytes@.subrange(pos + 1, pos + 5) =~= b.subrange(1, 5));
            assert(b.skip(5) =~= bytes@.skip(pos + 5));
        }
        match parse_seq(bytes, pos + 5, n as usize) {
            Ok((es, end)) => Ok((Value::Arr(es), end)),
            Err(_) => Err(()),
        }
    } else if h == 0xde && bytes.len() - pos >= 3 {
        let n = read_be16(bytes, pos + 1);
        proof {
            assert(bytes@.subrange(pos + 1, pos + 3) =~= b.subrange(1, 3));
            assert(b.skip(3) =~= bytes@.skip(pos + 3));
        }
        match parse_entries(bytes, pos + 3, n as usize) {
            Ok((es, end)) => Ok((Value::Object(es), end)),
            Err(_) => Err(()),
        }
    } else if h == 0xdf && bytes.len() - pos >= 5 {
        let n = read_be32(bytes, pos + 1);
        proof {
            assert(bytes@.subrange(pos + 1, pos + 5) =~= b.subrange(1, 5));
            assert(b.skip(5) =~= bytes@.skip(pos + 5));
        }
        match parse_entries(bytes, pos + 5, n as usize) {
            Ok((es, end)) => Ok((Value::Object(es), end)),
            Err(_) => Err(()),
        }
    } else {
        Err(())
    }
}

/// Parses `n` consecutive values at `pos`.
#[verifier::loop_isolation(false)]
fn parse_seq(bytes: &Vec<u8>, pos: usize, n: usize) -> (r: Result<(Vec<Value>, usize), ()>)
    requires
        pos <= bytes@.len(),
    ensures
        match r {
            Ok((vs, end)) => pos <= end <= bytes@.len() && dec_seq(
                bytes@.skip(pos as int),
                n as int,
            ) == Option::Some((seq_view(vs@), bytes@.skip(end as int))),
            Err(_) => dec_seq(bytes@.skip(pos as int), n as int) is None,
        },
    decreases bytes@.len() - pos, 1int, n,
{
    if n == 0 {
        let vs: Vec<Value> = Vec::new();
        return Ok((vs, pos));
    }
    match parse_value(bytes, pos) {
        Ok((v, p1)) => {
            match parse_seq(bytes, p1, n - 1) {
                Ok((mut vs, end)) => {
                    let ghost vs0 = vs@;
                    vs.insert(0, v);
                    proof {
                        assert(bytes@.skip(p1 as int).len() < bytes@.skip(pos as int).len());
                        assert(vs@.drop_first() =~= vs0);
                        assert(vs@[0] == v);
                        assert(seq_view(vs@) == seq![value_view(v)] + seq_view(vs0));
                    }
                    Ok((vs, end))
                },
                Err(_) => Err(()),
            }
        },
        Err(_) => Err(()),
    }
}

/// Parses `n` consecutive key-value entries at `pos`; every key must
/// decode as a string.
#[verifier::loop_isolation(false)]
fn parse_entries(bytes: &Vec<u8>, pos: usize, n: usize) -> (r: Result<
    (Vec<(String, Value)>, usize),
    (),
>)
    requires
        pos <= bytes@.len(),
    ensures
        match r {
            Ok((es, end)) => pos <= end <= bytes@.len() && dec_entries(
                bytes@.skip(pos as int),
                n as int,
            ) == Option::Some((entries_view(es@), bytes@.skip(end as int))),
            Err(_) => dec_entries(bytes@.skip(pos as int), n as int) is None,
        },
    decreases bytes@.len() - pos, 1int, n,
{
    if n == 0 {
        let es: Vec<(String, Value)> = Vec::new();
        return Ok((es, pos));
    }
    match parse_value(bytes, pos) {
        Ok((k, p1)) => {
            match k {
                Value::Str(ks) => {
                    match parse_value(bytes, p1) {
                        Ok((v, p2)) => {
                            match parse_entries(bytes, p2, n - 1) {
                                Ok((mut es, end)) => {
                                    let ghost es0 = es@;
                                    es.insert(0, (ks, v));
                                    proof {
                                        assert(bytes@.skip(p1 as int).len() < bytes@.skip(
                                            pos as int,
                                        ).len());
                                        assert(bytes@.skip(p2 as int).len() < bytes@.skip(
                                            pos as int,
                                        ).len());
                                        assert(es@.drop_first() =~= es0);
                                        assert(es@[0] == (ks, v));
                                        assert(entries_view(es@) == seq![(ks@, value_view(v))]
                                            + entries_view(es0));
                                    }
                                    Ok((es, end))
                                },
                                Err(_) => Err(()),
                            }
                        },
                        Err(_) => Err(()),
                    }
                },
                _ => Err(()),
            }
        },
        Err(_) => Err(()),
    }
}

proof fn lemma_be16_roundtrip(x: u16)
    ensures
        be16_val(be16(x)) == x,
{
    vstd::arithmetic::div_mod::lemma_fundamental_div_mod(x as int, 0x100);
}

proof fn lemma_be32_roundtrip(x: u32)
    ensures
        be32_val(be32(x)) == x,
{
    let xi = x as int;
    vstd::arithmetic::div_mod::lemma_fundamental_div_mod(xi, 0x100);
    vstd::arithmetic::div_mod::lemma_fundamental_div_mod(xi / 0x100, 0x100);
    vstd::arithmetic::div_mod::lemma_fundamental_div_mod(xi / 0x10000, 0x100);
    vstd::arithmetic::div_mod::lemma_div_denominator(xi, 0x100, 0x100);
    vstd::arithmetic::div_mod::lemma_div_denominator(xi, 0x10000, 0x100);
}

proof fn lemma_be64_roundtrip(x: u64)
    ensures
        be64_val(be64(x)) == x,
{
    let xi = x as int;
    vstd::arithmetic::div_mod::lemma_fundamental_div_mod(xi, 0x100);
    vstd::arithmetic::div_mod::lemma_fundamental_div_mod(xi / 0x100, 0x100);
    vstd::arithmetic::div_mod::lemma_fundamental_div_mod(xi / 0x10000, 0x100);
    vstd::arithmetic::div_mod::lemma_fundamental_div_mod(xi / 0x1000000, 0x100);
    vstd::arithmetic::div_mod::lemma_fundamental_div_mod(xi / 0x100000000, 0x100);
    vstd::arithmetic::div_mod::lemma_fundamental_div_mod(xi / 0x10000000000, 0x100);
    vstd::arithmetic::div_mod::lemma_fundamental_div_mod(xi / 0x1000000000000, 0x100);
    vstd::arithmetic::div_mod::lemma_div_denominator(xi, 0x100, 0x100);
    vstd::arithmetic::div_mod::lemma_div_denominator(xi, 0x10000, 0x100);
    vstd::arithmetic::div_mod::lemma_div_denominator(xi, 0x1000000, 0x100);
    vstd::arithmetic::div_mod::lemma_div_denominator(xi, 0x100000000, 0x100);
    vstd::arithmetic::div_mod::lemma_div_denominator(xi, 0x10000000000, 0x100);
    vstd::arithmetic::div_mod::lemma_div_denominator(xi, 0x1000000000000, 0x100);
}

/// No value encodes to the empty byte sequence: every form opens with a
/// header byte.
proof fn lemma_encoding_len_pos(v: ValueView)
    ensures
        encoding(v).len() >= 1,
{
}

/// Parsing the encoding of an integer off any continuation recovers it.
#[verifier::rlimit(100)]
proof fn lemma_dec_int_encoding(i: int, rest: Seq<u8>)
    requires
        i64::MIN <= i <= i64::MAX,
    ensures
        dec_value(int_encoding(i) + rest) == Option::Some((ValueView::Int(i), rest)),
{
    let b = int_encoding(i) + rest;
    if 0 <= i < 0x80 {
        assert(b.drop_first() =~= rest);
    } else if 0x80 <= i < 0x100 {
        assert(b.skip(2) =~= rest);
    } else if 0x100 <= i < 0x10000 {
        lemma_be16_roundtrip(i as u16);
        assert(b.subrange(1, 3) =~= be16(i as u16));
        assert(b.skip(3) =~= rest);
    } else if 0x10000 <= i < 0x100000000 {
        lemma_be32_roundtrip(i as u32);
        assert(b.subrange(1, 5) =~= be32(i as u32));
        assert(b.skip(5) =~= rest);
    } else if i >= 0x100000000 {
        lemma_be64_roundtrip(i as u64);
        assert(b.subrange(1, 9) =~= be64(i as u64));
        assert(b.skip(9) =~= rest);
    } else if -0x20 <= i < 0 {
        assert(b.drop_first() =~= rest);
    } else if -0x80 <= i < -0x20 {
        assert(b.skip(2) =~= rest);
    } else if -0x8000 <= i < -0x80 {
        lemma_be16_roundtrip((i + 0x10000) as u16);
        assert(b.subrange(1, 3) =~= be16((i + 0x10000) as u16));
        assert(b.skip(3) =~= rest);
    } else if -0x80000000 <= i < -0x8000 {
        lemma_be32_roundtrip((i + 0x100000000) as u32);
        assert(b.subrange(1, 5) =~= be32((i + 0x100000000) as u32));
        assert(b.skip(5) =~= rest);
    } else {
        lemma_be64_roundtrip((i + 0x10000000000000000) as u64);
        assert(b.subrange(1, 9) =~= be64((i + 0x10000000000000000) as u64));
        assert(b.skip(9) =~= rest);
    }
}

/// Parsing the encoding of a string off any continuation recovers it.
proof fn lemma_dec_str_encoding(s: Seq<char>, rest: Seq<u8>)
    requires
        encode_utf8(s).len() <= u32::MAX,
    ensures
        dec_value(str_encoding(s) + rest) == Option::Some((ValueView::Str(s), rest)),
{
    let u = encode_utf8(s);
    let n = u.len() as int;
    let b = str_encoding(s) + rest;
    vstd::utf8::encode_utf8_valid_utf8(s);
    vstd::utf8::encode_utf8_decode_utf8(s);
    if n < 0x20 {
        assert(b.drop_first() =~= u + rest);
        assert((u + rest).take(n) =~= u);
        assert((u + rest).skip(n) =~= rest);
    } else if n < 0x100 {
        assert(b.skip(2) =~= u + rest);
        assert((u + rest).take(n) =~= u);
        assert((u + rest).skip(n) =~= rest);
    } else if n < 0x10000 {
        lemma_be16_roundtrip(n as u16);
        assert(b.subrange(1, 3) =~= be16(n as u16));
        assert(b.skip(3) =~= u + rest);
        assert((u + rest).take(n) =~= u);
        assert((u + rest).skip(n) =~= rest);
    } else {
        lemma_be32_roundtrip(n as u32);
        assert(b.subrange(1, 5) =~= be32(n as u32));
        assert(b.skip(5) =~= u + rest);
        assert((u + rest).take(n) =~= u);
        assert((u + rest).skip(n) =~= rest);
    }
}

/// Parsing the concatenated encodings of `es` off any continuation
/// recovers them.
proof fn lemma_dec_seq_encoding(es: Seq<ValueView>, rest: Seq<u8>)
    requires
        forall|i: int| 0 <= i < es.len() ==> encodable(#[trigger] es[i]),
    ensures
        dec_seq(encoding_seq(es) + rest, es.len() as int) == Option::Some((es, rest)),
    decreases es,
{
    if es.len() == 0 {
        assert(encoding_seq(es) + rest =~= rest);
    } else {
        let tail = encoding_seq(es.drop_first()) + rest;
        let b = encoding_seq(es) + rest;
        assert(b =~= encoding(es[0]) + tail);
        lemma_dec_encoding(es[0], tail);
        lemma_encoding_len_pos(es[0]);
        lemma_dec_seq_encoding(es.drop_first(), rest);
        assert(es.drop_first().len() as int == es.len() as int - 1);
        assert(seq![es[0]] + es.drop_first() =~= es);
    }
}

/// Parsing the concatenated encodings of map entries off any continuation
/// recovers them.
proof fn lemma_dec_entries_encoding(es: Seq<(Seq<char>, ValueView)>, rest: Seq<u8>)
    requires
        forall|i: int| 0 <= i < es.len() ==> encode_utf8((#[trigger] es[i]).0).len() <= u32::MAX
            && encodable(es[i].1),
    ensures
        dec_entries(encoding_entries(es) + rest, es.len() as int) == Option::Some((es, rest)),
    decreases es,
{
    if es.len() == 0 {
        assert(encoding_entries(es) + rest =~= rest);
    } else {
        let k = es[0].0;
        let v0 = es[0].1;
        let tail2 = encoding_entries(es.drop_first()) + rest;
        let tail1 = encoding(v0) + tail2;
        let b = encoding_entries(es) + rest;
        assert(encoding(ValueView::Str(k)) == str_encoding(k));
        assert(encoding_entries(es) == encoding_entry(es[0]) + encoding_entries(es.drop_first()));
        assert(encoding_entry(es[0]) == str_encoding(k) + encoding(v0));
        assert(b =~= str_encoding(k) + tail1);
        lemma_dec_str_encoding(k, tail1);
        assert(str_encoding(k).len() >= 1);
        lemma_dec_encoding(v0, tail2);
        lemma_dec_entries_encoding(es.drop_first(), rest);
        assert(es.drop_first().len() as int == es.len() as int - 1);
        assert((k, v0) == es[0]);
        assert(seq![es[0]] + es.drop_first() =~= es);
    }
}

/// Parsing the encoding of any encodable value off any continuation
/// recovers exactly that value and leaves the continuation.
pub proof fn lemma_dec_encoding(v: ValueView, rest: Seq<u8>)
    requires
        encodable(v),
    ensures
        dec_value(encoding(v) + rest) == Option::Some((v, rest)),
    decreases v,
{
    let b = encoding(v) + rest;
    match v {
        ValueView::Null => {
            assert(b.drop_first() =~= rest);
        },
        ValueView::Bool(_) => {
            assert(b.drop_first() =~= rest);
        },
        ValueView::Int(i) => {
            lemma_dec_int_encoding(i, rest);
        },
        ValueView::Str(s) => {
            lemma_dec_str_encoding(s, rest);
        },
        ValueView::Arr(es) => {
            let n = es.len() as int;
            let tail = encoding_seq(es) + rest;
            lemma_dec_seq_encoding(es, rest);
            if n < 0x10 {
                assert(b.drop_first() =~= tail);
            } else if n < 0x10000 {
                lemma_be16_roundtrip(n as u16);
                assert(b.subrange(1, 3) =~= be16(n as u16));
                assert(b.skip(3) =~= tail);
            } else {
                lemma_be32_roundtrip(n as u32);
                assert(b.subrange(1, 5) =~= be32(n as u32));
                assert(b.skip(5) =~= tail);
            }
        },
        ValueView::Object(es) => {
            let n = es.len() as int;
            let tail = encoding_entries(es) + rest;
            lemma_dec_entries_encoding(es, rest);
            if n < 0x10 {
                assert(b.drop_first() =~= tail);
            } else if n < 0x10000 {
                lemma_be16_roundtrip(n as u16);
                assert(b.subrange(1, 3) =~= be16(n as u16));
                assert(b.skip(3) =~= tail);
            } else {
                lemma_be32_roundtrip(n as u32);
                assert(b.subrange(1, 5) =~= be32(n as u32));
                assert(b.skip(5) =~= tail);
            }
        },
    }
}

/// Round trip: every encodable value decodes from its own encoding, and
/// from nothing longer or shorter.
pub proof fn lemma_round_trip(v: ValueView)
    requires
        encodable(v),
    ensures
        decoded(encoding(v)) == Option::Some(v),
{
    lemma_dec_encoding(v, Seq::empty());
    assert(encoding(v) + Seq::<u8>::empty() =~= encoding(v));
}

/// Decodes a complete byte sequence into a value; trailing bytes or any
/// byte shape outside the format fail the decode.
pub fn decode(bytes: &Vec<u8>) -> (r: Result<Value, Error>)
    ensures
        match r {
            Ok(v) => decoded(bytes@) == Option::Some(v@),
            Err(e) => decoded(bytes@) is None && e.kind == ErrorKind::Serialization,
        },
{
    proof {
        assert(bytes@.skip(0) =~= bytes@);
    }
    match parse_value(bytes, 0) {
        Ok((v, end)) => {
            if end == bytes.len() {
                proof {
                    assert(bytes@.skip(end as int).len() == 0);
                }
                Ok(v)
            } else {
                Err(Error::new(
                    ErrorKind::Serialization,
                    String::from_str("trailing bytes after the decoded value"),
                ))
            }
        },
        Err(_) => Err(Error::new(
            ErrorKind::Serialization,
            String::from_str("output bytes do not hold a value of the wire format"),
        )),
    }
}

} // verus!
