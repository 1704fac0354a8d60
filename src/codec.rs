//! The binary form of a chapter.
//!
//! All integers are little-endian. A string is its UTF-8 length as a `u64`
//! followed by its UTF-8 bytes; a sequence is its length as a `u64` followed
//! by its items. An enum value is its variant's index as a `u32` followed by
//! the variant's fields.
use vstd::prelude::*;
use vstd::bytes::{
    spec_u32_from_le_bytes, spec_u32_to_le_bytes, spec_u64_from_le_bytes, spec_u64_to_le_bytes,
    u32_from_le_bytes, u32_to_le_bytes, u64_from_le_bytes, u64_to_le_bytes,
    lemma_auto_spec_u32_to_from_le_bytes, lemma_auto_spec_u64_to_from_le_bytes,
};
use vstd::slice::slice_subrange;
use vstd::utf8::{decode_utf8, encode_utf8, valid_utf8};
use crate::ast::{
    Action, ChExpr, ChExprV, Chapter, ChapterV, Instruction, LineChild, LineChildV, Span, SpanV,
    TextProperties, children_view, exprs_view,
};

verus! {

broadcast use {vstd::string::group_string_axioms, vstd::utf8::group_utf8_lib};

/// The bytes of a `u32`.
pub open spec fn enc_u32(v: u32) -> Seq<u8> {
    spec_u32_to_le_bytes(v)
}

/// The bytes of a length.
pub open spec fn enc_len(n: nat) -> Seq<u8> {
    spec_u64_to_le_bytes(n as u64)
}

/// The bytes of a string.
pub open spec fn enc_str(s: Seq<char>) -> Seq<u8> {
    enc_len(encode_utf8(s).len()) + encode_utf8(s)
}

/// The bytes of a line child.
pub open spec fn enc_child(c: LineChildV) -> Seq<u8> {
    match c {
        LineChildV::Span(s) => enc_u32(0) + enc_str(s.text) + enc_u32(s.speed),
        LineChildV::Play(sound) => enc_u32(1) + enc_u32(0) + enc_str(sound),
    }
}

/// The bytes of a sequence of line children, without its length.
pub open spec fn enc_children(cs: Seq<LineChildV>) -> Seq<u8>
    decreases cs.len(),
{
    if cs.len() == 0 {
        seq![]
    } else {
        enc_children(cs.drop_last()) + enc_child(cs.last())
    }
}

/// The bytes of a chapter expression.
pub open spec fn enc_expr(e: ChExprV) -> Seq<u8> {
    match e {
        ChExprV::Await => enc_u32(0) + enc_u32(0),
        ChExprV::Play(sound) => enc_u32(1) + enc_u32(0) + enc_str(sound),
        ChExprV::Line(cs) => enc_u32(2) + enc_len(cs.len()) + enc_children(cs),
    }
}

/// The bytes of a sequence of chapter expressions, without its length.
pub open spec fn enc_exprs(es: Seq<ChExprV>) -> Seq<u8>
    decreases es.len(),
{
    if es.len() == 0 {
        seq![]
    } else {
        enc_exprs(es.drop_last()) + enc_expr(es.last())
    }
}

/// The bytes of a chapter.
pub open spec fn enc_chapter(c: ChapterV) -> Seq<u8> {
    enc_str(c.voice) + enc_len(c.content.len()) + enc_exprs(c.content)
}

/// Whether a length can be written.
pub open spec fn len_fits(n: nat) -> bool {
    n <= u64::MAX
}

/// Whether the lengths in a string can be written.
pub open spec fn str_fits(s: Seq<char>) -> bool {
    len_fits(encode_utf8(s).len())
}

/// Whether the lengths in a line child can be written.
pub open spec fn child_fits(c: LineChildV) -> bool {
    match c {
        LineChildV::Span(s) => str_fits(s.text),
        LineChildV::Play(sound) => str_fits(sound),
    }
}

/// Whether the lengths in a chapter expression can be written.
pub open spec fn expr_fits(e: ChExprV) -> bool {
    match e {
        ChExprV::Await => true,
        ChExprV::Play(sound) => str_fits(sound),
        ChExprV::Line(cs) => len_fits(cs.len()) && forall|i: int|
            0 <= i < cs.len() ==> #[trigger] child_fits(cs[i]),
    }
}

/// Whether every length in a chapter can be written.
pub open spec fn chapter_fits(c: ChapterV) -> bool {
    &&& str_fits(c.voice)
    &&& len_fits(c.content.len())
    &&& forall|i: int| 0 <= i < c.content.len() ==> #[trigger] expr_fits(c.content[i])
}

/// Reads a `u32` at `p`: the value and the position after it.
pub open spec fn parse_u32(b: Seq<u8>, p: int) -> Option<(u32, int)> {
    if 0 <= p && p + 4 <= b.len() {
        Some((spec_u32_from_le_bytes(b.subrange(p, p + 4)), p + 4))
    } else {
        None
    }
}

/// Reads a length at `p`.
pub open spec fn parse_len(b: Seq<u8>, p: int) -> Option<(nat, int)> {
    if 0 <= p && p + 8 <= b.len() {
        Some((spec_u64_from_le_bytes(b.subrange(p, p + 8)) as nat, p + 8))
    } else {
        None
    }
}

/// Reads a string at `p`: its bytes must be valid UTF-8.
pub open spec fn parse_str(b: Seq<u8>, p: int) -> Option<(Seq<char>, int)> {
    match parse_len(b, p) {
        Some((n, q)) => {
            if q + n <= b.len() && valid_utf8(b.subrange(q, q + n)) {
                Some((decode_utf8(b.subrange(q, q + n)), q + n))
            } else {
                None
            }
        },
        None => None,
    }
}

/// Reads a play instruction at `p`: the sound.
pub open spec fn parse_play(b: Seq<u8>, p: int) -> Option<(Seq<char>, int)> {
    match parse_u32(b, p) {
        Some((tag, q)) => if tag == 0 {
            parse_str(b, q)
        } else {
            None
        },
        None => None,
    }
}

/// Reads a line child at `p`.
pub open spec fn parse_child(b: Seq<u8>, p: int) -> Option<(LineChildV, int)> {
    match parse_u32(b, p) {
        Some((tag, q)) => if tag == 0 {
            match parse_str(b, q) {
                Some((text, q2)) => match parse_u32(b, q2) {
                    Some((speed, q3)) => Some((LineChildV::Span(SpanV { text, speed }), q3)),
                    None => None,
                },
                None => None,
            }
        } else if tag == 1 {
            match parse_play(b, q) {
                Some((sound, q2)) => Some((LineChildV::Play(sound), q2)),
                None => None,
            }
        } else {
            None
        },
        None => None,
    }
}

/// Reads `n` line children at `p`.
pub open spec fn parse_children(b: Seq<u8>, p: int, n: nat) -> Option<(Seq<LineChildV>, int)>
    decreases n,
{
    if n == 0 {
        Some((seq![], p))
    } else {
        match parse_child(b, p) {
            Some((c, q)) => match parse_children(b, q, (n - 1) as nat) {
                Some((cs, q2)) => Some((seq![c] + cs, q2)),
                None => None,
            },
            None => None,
        }
    }
}

/// Reads a chapter expression at `p`.
pub open spec fn parse_expr(b: Seq<u8>, p: int) -> Option<(ChExprV, int)> {
    match parse_u32(b, p) {
        Some((tag, q)) => if tag == 0 {
            match parse_u32(b, q) {
                Some((action, q2)) => if action == 0 {
                    Some((ChExprV::Await, q2))
                } else {
                    None
                },
                None => None,
            }
        } else if tag == 1 {
            match parse_play(b, q) {
                Some((sound, q2)) => Some((ChExprV::Play(sound), q2)),
                None => None,
            }
        } else if tag == 2 {
            match parse_len(b, q) {
                Some((n, q2)) => match parse_children(b, q2, n) {
                    Some((cs, q3)) => Some((ChExprV::Line(cs), q3)),
                    None => None,
                },
                None => None,
            }
        } else {
            None
        },
        None => None,
    }
}

/// Reads `n` chapter expressions at `p`.
pub open spec fn parse_exprs(b: Seq<u8>, p: int, n: nat) -> Option<(Seq<ChExprV>, int)>
    decreases n,
{
    if n == 0 {
        Some((seq![], p))
    } else {
        match parse_expr(b, p) {
            Some((e, q)) => match parse_exprs(b, q, (n - 1) as nat) {
                Some((es, q2)) => Some((seq![e] + es, q2)),
                None => None,
            },
            None => None,
        }
    }
}

/// The chapter that `b` holds, if `b` is exactly the bytes of one.
pub open spec fn parse_chapter(b: Seq<u8>) -> Option<ChapterV> {
    match parse_str(b, 0) {
        Some((voice, q)) => match parse_len(b, q) {
            Some((n, q2)) => match parse_exprs(b, q2, n) {
                Some((content, q3)) => {
                    if q3 == b.len() {
                        Some(ChapterV { voice, content })
                    } else {
                        None
                    }
                },
                None => None,
            },
            None => None,
        },
        None => None,
    }
}

proof fn lemma_split(b: Seq<u8>, p: int, x: Seq<u8>, y: Seq<u8>)
    requires
        0 <= p,
        p + x.len() + y.len() <= b.len(),
        b.subrange(p, p + x.len() + y.len()) == x + y,
    ensures
        b.subrange(p, p + x.len()) == x,
        b.subrange(p + x.len(), p + x.len() + y.len()) == y,
{
    assert(b.subrange(p, p + x.len()) =~= (x + y).subrange(0, x.len() as int));
    assert(b.subrange(p + x.len(), p + x.len() + y.len()) =~= (x + y).subrange(
        x.len() as int,
        (x.len() + y.len()) as int,
    ));
}

proof fn lemma_u32_at(b: Seq<u8>, p: int, v: u32)
    requires
        0 <= p,
        p + 4 <= b.len(),
        b.subrange(p, p + 4) == enc_u32(v),
    ensures
        enc_u32(v).len() == 4,
        parse_u32(b, p) == Some((v, p + 4)),
{
    lemma_auto_spec_u32_to_from_le_bytes();
    assert(spec_u32_to_le_bytes(v).len() == 4);
}

proof fn lemma_len_at(b: Seq<u8>, p: int, n: nat)
    requires
        0 <= p,
        p + 8 <= b.len(),
        len_fits(n),
        b.subrange(p, p + 8) == enc_len(n),
    ensures
        enc_len(n).len() == 8,
        parse_len(b, p) == Some((n, p + 8)),
{
    lemma_auto_spec_u64_to_from_le_bytes();
}

proof fn lemma_sizes(v: u32, n: nat)
    ensures
        enc_u32(v).len() == 4,
        enc_len(n).len() == 8,
{
    lemma_auto_spec_u32_to_from_le_bytes();
    lemma_auto_spec_u64_to_from_le_bytes();
}

proof fn lemma_str_at(b: Seq<u8>, p: int, s: Seq<char>)
    requires
        0 <= p,
        p + enc_str(s).len() <= b.len(),
        str_fits(s),
        b.subrange(p, p + enc_str(s).len()) == enc_str(s),
    ensures
        parse_str(b, p) == Some((s, p + enc_str(s).len())),
{
    let e = encode_utf8(s);
    lemma_sizes(0, e.len());
    lemma_split(b, p, enc_len(e.len()), e);
    lemma_len_at(b, p, e.len());
}

proof fn lemma_child_at(b: Seq<u8>, p: int, c: LineChildV)
    requires
        0 <= p,
        p + enc_child(c).len() <= b.len(),
        child_fits(c),
        b.subrange(p, p + enc_child(c).len()) == enc_child(c),
    ensures
        parse_child(b, p) == Some((c, p + enc_child(c).len())),
{
    match c {
        LineChildV::Span(sp) => {
            lemma_sizes(0, 0);
            lemma_sizes(sp.speed, 0);
            let a = enc_u32(0);
            let t = enc_str(sp.text);
            let z = enc_u32(sp.speed);
            lemma_split(b, p, a + t, z);
            lemma_split(b, p, a, t);
            lemma_u32_at(b, p, 0);
            lemma_str_at(b, p + 4, sp.text);
            lemma_u32_at(b, p + 4 + t.len(), sp.speed);
        },
        LineChildV::Play(sound) => {
            lemma_sizes(1, 0);
            lemma_sizes(0, 0);
            let a = enc_u32(1);
            let z = enc_u32(0);
            let t = enc_str(sound);
            lemma_split(b, p, a + z, t);
            lemma_split(b, p, a, z);
            lemma_u32_at(b, p, 1);
            lemma_u32_at(b, p + 4, 0);
            lemma_str_at(b, p + 8, sound);
        },
    }
}

proof fn lemma_enc_children_front(cs: Seq<LineChildV>)
    requires
        cs.len() > 0,
    ensures
        enc_children(cs) == enc_child(cs[0]) + enc_children(cs.drop_first()),
    decreases cs.len(),
{
    if cs.len() > 1 {
        lemma_enc_children_front(cs.drop_last());
        assert(cs.drop_last().drop_first() =~= cs.drop_first().drop_last());
        assert(cs.drop_first().last() == cs.last());
        assert(enc_children(cs) =~= enc_child(cs[0]) + enc_children(cs.drop_first()));
    } else {
        assert(enc_children(cs.drop_last()) =~= seq![]);
        assert(enc_children(cs.drop_first()) =~= seq![]);
        assert(cs.last() == cs[0]);
        assert(enc_children(cs) =~= enc_child(cs[0]) + enc_children(cs.drop_first()));
    }
}

proof fn lemma_children_at(b: Seq<u8>, p: int, cs: Seq<LineChildV>)
    requires
        0 <= p,
        p + enc_children(cs).len() <= b.len(),
        forall|i: int| 0 <= i < cs.len() ==> #[trigger] child_fits(cs[i]),
        b.subrange(p, p + enc_children(cs).len()) == enc_children(cs),
    ensures
        parse_children(b, p, cs.len()) == Some((cs, p + enc_children(cs).len())),
    decreases cs.len(),
{
    if cs.len() > 0 {
        lemma_enc_children_front(cs);
        let x = enc_child(cs[0]);
        let rest = cs.drop_first();
        lemma_split(b, p, x, enc_children(rest));
        assert(child_fits(cs[0]));
        lemma_child_at(b, p, cs[0]);
        assert forall|i: int| 0 <= i < rest.len() implies #[trigger] child_fits(rest[i]) by {
            assert(child_fits(cs[i + 1]));
        }
        lemma_children_at(b, p + x.len(), rest);
        assert(seq![cs[0]] + rest =~= cs);
    }
}

proof fn lemma_expr_at(b: Seq<u8>, p: int, e: ChExprV)
    requires
        0 <= p,
        p + enc_expr(e).len() <= b.len(),
        expr_fits(e),
        b.subrange(p, p + enc_expr(e).len()) == enc_expr(e),
    ensures
        parse_expr(b, p) == Some((e, p + enc_expr(e).len())),
{
    lemma_sizes(0, 0);
    lemma_sizes(1, 0);
    lemma_sizes(2, 0);
    match e {
        ChExprV::Await => {
            lemma_split(b, p, enc_u32(0), enc_u32(0));
            lemma_u32_at(b, p, 0);
            lemma_u32_at(b, p + 4, 0);
        },
        ChExprV::Play(sound) => {
            let t = enc_str(sound);
            lemma_split(b, p, enc_u32(1) + enc_u32(0), t);
            lemma_split(b, p, enc_u32(1), enc_u32(0));
            lemma_u32_at(b, p, 1);
            lemma_u32_at(b, p + 4, 0);
            lemma_str_at(b, p + 8, sound);
        },
        ChExprV::Line(cs) => {
            lemma_sizes(0, cs.len());
            let l = enc_len(cs.len());
            let t = enc_children(cs);
            lemma_split(b, p, enc_u32(2) + l, t);
            lemma_split(b, p, enc_u32(2), l);
            lemma_u32_at(b, p, 2);
            lemma_len_at(b, p + 4, cs.len());
            lemma_children_at(b, p + 12, cs);
        },
    }
}

proof fn lemma_enc_exprs_front(es: Seq<ChExprV>)
    requires
        es.len() > 0,
    ensures
        enc_exprs(es) == enc_expr(es[0]) + enc_exprs(es.drop_first()),
    decreases es.len(),
{
    if es.len() > 1 {
        lemma_enc_exprs_front(es.drop_last());
        assert(es.drop_last().drop_first() =~= es.drop_first().drop_last());
        assert(es.drop_first().last() == es.last());
        assert(enc_exprs(es) =~= enc_expr(es[0]) + enc_exprs(es.drop_first()));
    } else {
        assert(enc_exprs(es.drop_last()) =~= seq![]);
        assert(enc_exprs(es.drop_first()) =~= seq![]);
        assert(es.last() == es[0]);
        assert(enc_exprs(es) =~= enc_expr(es[0]) + enc_exprs(es.drop_first()));
    }
}

proof fn lemma_exprs_at(b: Seq<u8>, p: int, es: Seq<ChExprV>)
    requires
        0 <= p,
        p + enc_exprs(es).len() <= b.len(),
        forall|i: int| 0 <= i < es.len() ==> #[trigger] expr_fits(es[i]),
        b.subrange(p, p + enc_exprs(es).len()) == enc_exprs(es),
    ensures
        parse_exprs(b, p, es.len()) == Some((es, p + enc_exprs(es).len())),
    decreases es.len(),
{
    if es.len() > 0 {
        lemma_enc_exprs_front(es);
        let x = enc_expr(es[0]);
        let rest = es.drop_first();
        lemma_split(b, p, x, enc_exprs(rest));
        assert(expr_fits(es[0]));
        lemma_expr_at(b, p, es[0]);
        assert forall|i: int| 0 <= i < rest.len() implies #[trigger] expr_fits(rest[i]) by {
            assert(expr_fits(es[i + 1]));
        }
        lemma_exprs_at(b, p + x.len(), rest);
        assert(seq![es[0]] + rest =~= es);
    }
}

/// Decoding the encoding of a chapter gives back the same chapter: its
/// voice, and every event with its children and their order, strings and
/// speeds. This holds of every chapter whose lengths fit in the format.
pub proof fn lemma_round_trip(c: ChapterV)
    requires
        chapter_fits(c),
    ensures
        parse_chapter(enc_chapter(c)) == Some(c),
{
    let b = enc_chapter(c);
    let v = enc_str(c.voice);
    let l = enc_len(c.content.len());
    let t = enc_exprs(c.content);
    lemma_sizes(0, c.content.len());
    assert(b.subrange(0, b.len() as int) =~= b);
    lemma_split(b, 0, v + l, t);
    lemma_split(b, 0, v, l);
    lemma_str_at(b, 0, c.voice);
    lemma_len_at(b, v.len() as int, c.content.len());
    lemma_exprs_at(b, v.len() + 8int, c.content);
}

proof fn lemma_join(b: Seq<u8>, p: int, q: int, r: int)
    requires
        0 <= p <= q <= r <= b.len(),
    ensures
        b.subrange(p, r) == b.subrange(p, q) + b.subrange(q, r),
{
    assert(b.subrange(p, r) =~= b.subrange(p, q) + b.subrange(q, r));
}

proof fn lemma_u32_read(b: Seq<u8>, p: int)
    requires
        parse_u32(b, p) is Some,
    ensures
        ({
            let (v, q) = parse_u32(b, p)->0;
            q == p + 4 && b.subrange(p, q) == enc_u32(v)
        }),
{
    lemma_auto_spec_u32_to_from_le_bytes();
    assert(b.subrange(p, p + 4).len() == 4);
}

proof fn lemma_len_read(b: Seq<u8>, p: int)
    requires
        parse_len(b, p) is Some,
    ensures
        ({
            let (n, q) = parse_len(b, p)->0;
            q == p + 8 && b.subrange(p, q) == enc_len(n) && len_fits(n)
        }),
{
    lemma_auto_spec_u64_to_from_le_bytes();
    assert(b.subrange(p, p + 8).len() == 8);
}

proof fn lemma_str_read(b: Seq<u8>, p: int)
    requires
        parse_str(b, p) is Some,
    ensures
        ({
            let (s, q) = parse_str(b, p)->0;
            p <= q <= b.len() && b.subrange(p, q) == enc_str(s) && str_fits(s)
        }),
{
    lemma_len_read(b, p);
    let (n, q) = parse_len(b, p)->0;
    let x = b.subrange(q, q + n);
    assert(encode_utf8(decode_utf8(x)) == x);
    lemma_join(b, p, q, q + n);
}

proof fn lemma_child_read(b: Seq<u8>, p: int)
    requires
        parse_child(b, p) is Some,
    ensures
        ({
            let (c, q) = parse_child(b, p)->0;
            p <= q <= b.len() && b.subrange(p, q) == enc_child(c) && child_fits(c)
        }),
{
    lemma_u32_read(b, p);
    let (tag, q) = parse_u32(b, p)->0;
    if tag == 0 {
        lemma_str_read(b, q);
        let (text, q2) = parse_str(b, q)->0;
        lemma_u32_read(b, q2);
        lemma_join(b, p, q, q2);
        lemma_join(b, p, q2, q2 + 4);
    } else {
        lemma_u32_read(b, q);
        let q2 = q + 4;
        lemma_str_read(b, q2);
        let (sound, q3) = parse_str(b, q2)->0;
        lemma_join(b, p, q, q2);
        lemma_join(b, p, q2, q3);
    }
}

proof fn lemma_children_read(b: Seq<u8>, p: int, n: nat)
    requires
        0 <= p <= b.len(),
        parse_children(b, p, n) is Some,
    ensures
        ({
            let (cs, q) = parse_children(b, p, n)->0;
            &&& p <= q <= b.len()
            &&& cs.len() == n
            &&& b.subrange(p, q) == enc_children(cs)
            &&& forall|i: int| 0 <= i < cs.len() ==> #[trigger] child_fits(cs[i])
        }),
    decreases n,
{
    if n > 0 {
        lemma_child_read(b, p);
        let (c, q) = parse_child(b, p)->0;
        lemma_children_read(b, q, (n - 1) as nat);
        let (rest, q2) = parse_children(b, q, (n - 1) as nat)->0;
        let cs = seq![c] + rest;
        assert(cs.drop_first() =~= rest);
        lemma_enc_children_front(cs);
        lemma_join(b, p, q, q2);
        assert forall|i: int| 0 <= i < cs.len() implies #[trigger] child_fits(cs[i]) by {
            if i > 0 {
                assert(cs[i] == rest[i - 1]);
            }
        }
    } else {
        assert(b.subrange(p, p) =~= seq![]);
    }
}

proof fn lemma_expr_read(b: Seq<u8>, p: int)
    requires
        0 <= p <= b.len(),
        parse_expr(b, p) is Some,
    ensures
        ({
            let (e, q) = parse_expr(b, p)->0;
            p <= q <= b.len() && b.subrange(p, q) == enc_expr(e) && expr_fits(e)
        }),
{
    lemma_u32_read(b, p);
    let (tag, q) = parse_u32(b, p)->0;
    if tag == 0 {
        lemma_u32_read(b, q);
        lemma_join(b, p, q, q + 4);
    } else if tag == 1 {
        lemma_u32_read(b, q);
        let q2 = q + 4;
        lemma_str_read(b, q2);
        let (sound, q3) = parse_str(b, q2)->0;
        lemma_join(b, p, q, q2);
        lemma_join(b, p, q2, q3);
    } else {
        lemma_len_read(b, q);
        let (n, q2) = parse_len(b, q)->0;
        lemma_children_read(b, q2, n);
        let (cs, q3) = parse_children(b, q2, n)->0;
        lemma_join(b, p, q, q2);
        lemma_join(b, p, q2, q3);
    }
}

proof fn lemma_exprs_read(b: Seq<u8>, p: int, n: nat)
    requires
        0 <= p <= b.len(),
        parse_exprs(b, p, n) is Some,
    ensures
        ({
            let (es, q) = parse_exprs(b, p, n)->0;
            &&& p <= q <= b.len()
            &&& es.len() == n
            &&& b.subrange(p, q) == enc_exprs(es)
            &&& forall|i: int| 0 <= i < es.len() ==> #[trigger] expr_fits(es[i])
        }),
    decreases n,
{
    if n > 0 {
        lemma_expr_read(b, p);
        let (e, q) = parse_expr(b, p)->0;
        lemma_exprs_read(b, q, (n - 1) as nat);
        let (rest, q2) = parse_exprs(b, q, (n - 1) as nat)->0;
        let es = seq![e] + rest;
        assert(es.drop_first() =~= rest);
        lemma_enc_exprs_front(es);
        lemma_join(b, p, q, q2);
        assert forall|i: int| 0 <= i < es.len() implies #[trigger] expr_fits(es[i]) by {
            if i > 0 {
                assert(es[i] == rest[i - 1]);
            }
        }
    } else {
        assert(b.subrange(p, p) =~= seq![]);
    }
}

/// Decoding accepts exactly the encodings: `b` decodes to `c` if and only if
/// `b` is the encoding of `c` and every length in `c` fits in the format.
pub proof fn lemma_decode_exact(b: Seq<u8>, c: ChapterV)
    ensures
        parse_chapter(b) == Some(c) <==> (b == enc_chapter(c) && chapter_fits(c)),
{
    if parse_chapter(b) == Some(c) {
        lemma_str_read(b, 0);
        let (voice, q) = parse_str(b, 0)->0;
        lemma_len_read(b, q);
        let (n, q2) = parse_len(b, q)->0;
        lemma_exprs_read(b, q2, n);
        let (content, q3) = parse_exprs(b, q2, n)->0;
        lemma_join(b, 0, q, q2);
        lemma_join(b, 0, q2, q3);
        assert(b.subrange(0, b.len() as int) =~= b);
    }
    if b == enc_chapter(c) && chapter_fits(c) {
        lemma_round_trip(c);
    }
}

fn push_bytes(out: &mut Vec<u8>, b: &[u8])
    ensures
        final(out)@ == old(out)@ + b@,
{
    let mut i: usize = 0;
    while i < b.len()
        invariant
            i <= b@.len(),
            out@ == old(out)@ + b@.take(i as int),
        decreases b@.len() - i,
    {
        out.push(b[i]);
        assert(out@ =~= old(out)@ + b@.take(i as int + 1));
        i = i + 1;
    }
    assert(b@.take(i as int) =~= b@);
}

fn put_u32(out: &mut Vec<u8>, v: u32)
    ensures
        final(out)@ == old(out)@ + enc_u32(v),
{
    let bs = u32_to_le_bytes(v);
    push_bytes(out, bs.as_slice());
}

fn put_len(out: &mut Vec<u8>, n: usize)
    ensures
        final(out)@ == old(out)@ + enc_len(n as nat),
{
    let bs = u64_to_le_bytes(n as u64);
    push_bytes(out, bs.as_slice());
}

fn put_str(out: &mut Vec<u8>, s: &String)
    ensures
        final(out)@ == old(out)@ + enc_str(s@),
{
    let b = s.as_str().as_bytes();
    put_len(out, b.len());
    push_bytes(out, b);
    assert(out@ =~= old(out)@ + enc_str(s@));
}

fn put_child(out: &mut Vec<u8>, c: &LineChild)
    ensures
        final(out)@ == old(out)@ + enc_child(c@),
{
    match c {
        LineChild::Span(sp) => {
            put_u32(out, 0);
            put_str(out, &sp.text);
            put_u32(out, sp.properties.speed);
        },
        LineChild::Instruction(Instruction::Play { sound }) => {
            put_u32(out, 1);
            put_u32(out, 0);
            put_str(out, sound);
        },
    }
    assert(out@ =~= old(out)@ + enc_child(c@));
}

fn put_expr(out: &mut Vec<u8>, e: &ChExpr)
    ensures
        final(out)@ == old(out)@ + enc_expr(e@),
{
    match e {
        ChExpr::Action(Action::Await) => {
            put_u32(out, 0);
            put_u32(out, 0);
        },
        ChExpr::Instruction(Instruction::Play { sound }) => {
            put_u32(out, 1);
            put_u32(out, 0);
            put_str(out, sound);
        },
        ChExpr::Line { content } => {
            put_u32(out, 2);
            put_len(out, content.len());
            let ghost base = out@;
            let ghost cs = children_view(content@);
            let mut i: usize = 0;
            while i < content.len()
                invariant
                    i <= content@.len(),
                    cs == children_view(content@),
                    out@ == base + enc_children(cs.take(i as int)),
                decreases content@.len() - i,
            {
                put_child(out, &content[i]);
                assert(cs.take(i as int + 1).drop_last() =~= cs.take(i as int));
                i = i + 1;
            }
            assert(cs.take(i as int) =~= cs);
        },
    }
    assert(out@ =~= old(out)@ + enc_expr(e@));
}

/// The bytes of `chapter`.
pub fn encode(chapter: &Chapter) -> (r: Vec<u8>)
    ensures
        r@ == enc_chapter(chapter@),
{
    let mut out: Vec<u8> = Vec::new();
    put_str(&mut out, &chapter.voice);
    put_len(&mut out, chapter.content.len());
    let ghost base = out@;
    let ghost es = exprs_view(chapter.content@);
    let mut i: usize = 0;
    while i < chapter.content.len()
        invariant
            i <= chapter.content@.len(),
            es == exprs_view(chapter.content@),
            out@ == base + enc_exprs(es.take(i as int)),
        decreases chapter.content@.len() - i,
    {
        put_expr(&mut out, &chapter.content[i]);
        assert(es.take(i as int + 1).drop_last() =~= es.take(i as int));
        i = i + 1;
    }
    assert(es.take(i as int) =~= es);
    assert(out@ =~= enc_chapter(chapter@));
    out
}

/// Relies on `std::str::from_utf8`: it accepts exactly the slices that are
/// valid UTF-8, and the string it gives has the same bytes.
#[verifier::external_body]
fn utf8_string(b: &[u8]) -> (r: Option<String>)
    ensures
        r is Some <==> valid_utf8(b@),
        r is Some ==> encode_utf8(r->0@) == b@,
{
    std::str::from_utf8(b).ok().map(|s| s.to_string())
}

fn get_u32(b: &[u8], p: usize) -> (r: Option<(u32, usize)>)
    ensures
        match parse_u32(b@, p as int) {
            Some((v, q)) => q <= b@.len() && match r {
                Some((v2, q2)) => v2 == v && q2 == q,
                None => false,
            },
            None => r is None,
        },
{
    if p <= b.len() && b.len() - p >= 4 {
        let s = slice_subrange(b, p, p + 4);
        Some((u32_from_le_bytes(s), p + 4))
    } else {
        None
    }
}

fn get_len(b: &[u8], p: usize) -> (r: Option<(u64, usize)>)
    ensures
        match parse_len(b@, p as int) {
            Some((n, q)) => q <= b@.len() && match r {
                Some((n2, q2)) => n2 == n && q2 == q,
                None => false,
            },
            None => r is None,
        },
{
    if p <= b.len() && b.len() - p >= 8 {
        let s = slice_subrange(b, p, p + 8);
        Some((u64_from_le_bytes(s), p + 8))
    } else {
        None
    }
}

fn get_str(b: &[u8], p: usize) -> (r: Option<(String, usize)>)
    ensures
        match parse_str(b@, p as int) {
            Some((s, q)) => q <= b@.len() && match r {
                Some((v, q2)) => v@ == s && q2 == q,
                None => false,
            },
            None => r is None,
        },
{
    match get_len(b, p) {
        Some((n, q)) => {
            if n > (b.len() - q) as u64 {
                return None;
            }
            let e = q + n as usize;
            let sub = slice_subrange(b, q, e);
            match utf8_string(sub) {
                Some(s) => {
                    assert(decode_utf8(encode_utf8(s@)) == s@);
                    Some((s, e))
                },
                None => None,
            }
        },
        None => None,
    }
}

fn get_child(b: &[u8], p: usize) -> (r: Option<(LineChild, usize)>)
    ensures
        match parse_child(b@, p as int) {
            Some((c, q)) => q <= b@.len() && match r {
                Some((v, q2)) => v@ == c && q2 == q,
                None => false,
            },
            None => r is None,
        },
{
    let (tag, q) = match get_u32(b, p) {
        Some(t) => t,
        None => return None,
    };
    if tag == 0 {
        let (text, q2) = match get_str(b, q) {
            Some(t) => t,
            None => return None,
        };
        let (speed, q3) = match get_u32(b, q2) {
            Some(t) => t,
            None => return None,
        };
        let c = LineChild::Span(Span { text, properties: TextProperties { speed } });
        assert(c@ == LineChildV::Span(SpanV { text: text@, speed }));
        Some((c, q3))
    } else if tag == 1 {
        let (sound, q2) = match get_play(b, q) {
            Some(t) => t,
            None => return None,
        };
        Some((LineChild::Instruction(Instruction::Play { sound }), q2))
    } else {
        None
    }
}

fn get_play(b: &[u8], p: usize) -> (r: Option<(String, usize)>)
    ensures
        match parse_play(b@, p as int) {
            Some((s, q)) => q <= b@.len() && match r {
                Some((v, q2)) => v@ == s && q2 == q,
                None => false,
            },
            None => r is None,
        },
{
    let (tag, q) = match get_u32(b, p) {
        Some(t) => t,
        None => return None,
    };
    if tag == 0 {
        get_str(b, q)
    } else {
        None
    }
}

proof fn lemma_children_step(
    b: Seq<u8>,
    p: int,
    n: nat,
    acc: Seq<LineChildV>,
    c: LineChildV,
    q: int,
)
    requires
        n > 0,
        parse_child(b, p) == Some((c, q)),
    ensures
        (match parse_children(b, p, n) {
            Some((r, x)) => Some((acc + r, x)),
            None => None,
        }) == (match parse_children(b, q, (n - 1) as nat) {
            Some((r, x)) => Some((acc.push(c) + r, x)),
            None => None,
        }),
{
    match parse_children(b, q, (n - 1) as nat) {
        Some((r, x)) => {
            assert(acc + (seq![c] + r) =~= acc.push(c) + r);
        },
        None => {},
    }
}

fn get_children(b: &[u8], p: usize, n: u64) -> (r: Option<(Vec<LineChild>, usize)>)
    requires
        p <= b@.len(),
    ensures
        match parse_children(b@, p as int, n as nat) {
            Some((cs, q)) => q <= b@.len() && match r {
                Some((v, q2)) => children_view(v@) == cs && q2 == q,
                None => false,
            },
            None => r is None,
        },
{
    let mut v: Vec<LineChild> = Vec::new();
    let mut pos = p;
    let mut i: u64 = 0;
    assert(children_view(v@) + seq![] =~= seq![]);
    while i < n
        invariant
            i <= n,
            pos <= b@.len(),
            (match parse_children(b@, p as int, n as nat) {
                Some((r, x)) => Some((seq![] + r, x)),
                None => None,
            }) == (match parse_children(b@, pos as int, (n - i) as nat) {
                Some((r, x)) => Some((children_view(v@) + r, x)),
                None => None,
            }),
        decreases n - i,
    {
        match get_child(b, pos) {
            Some((c, q)) => {
                proof {
                    lemma_children_step(b@, pos as int, (n - i) as nat, children_view(v@), c@, q as int);
                }
                let ghost before = v@;
                v.push(c);
                assert(children_view(v@) =~= children_view(before).push(c@));
                pos = q;
                i = i + 1;
            },
            None => {
                return None;
            },
        }
    }
    assert(children_view(v@) + seq![] =~= children_view(v@));
    proof {
        match parse_children(b@, p as int, n as nat) {
            Some((r, x)) => {
                assert(seq![] + r =~= r);
            },
            None => {},
        }
    }
    Some((v, pos))
}

fn get_expr(b: &[u8], p: usize) -> (r: Option<(ChExpr, usize)>)
    ensures
        match parse_expr(b@, p as int) {
            Some((e, q)) => q <= b@.len() && match r {
                Some((v, q2)) => v@ == e && q2 == q,
                None => false,
            },
            None => r is None,
        },
{
    let (tag, q) = match get_u32(b, p) {
        Some(t) => t,
        None => return None,
    };
    if tag == 0 {
        let (action, q2) = match get_u32(b, q) {
            Some(t) => t,
            None => return None,
        };
        if action == 0 {
            Some((ChExpr::Action(Action::Await), q2))
        } else {
            None
        }
    } else if tag == 1 {
        let (sound, q2) = match get_play(b, q) {
            Some(t) => t,
            None => return None,
        };
        Some((ChExpr::Instruction(Instruction::Play { sound }), q2))
    } else if tag == 2 {
        let (n, q2) = match get_len(b, q) {
            Some(t) => t,
            None => return None,
        };
        let (content, q3) = match get_children(b, q2, n) {
            Some(t) => t,
            None => return None,
        };
        Some((ChExpr::Line { content }, q3))
    } else {
        None
    }
}

proof fn lemma_exprs_step(b: Seq<u8>, p: int, n: nat, acc: Seq<ChExprV>, e: ChExprV, q: int)
    requires
        n > 0,
        parse_expr(b, p) == Some((e, q)),
    ensures
        (match parse_exprs(b, p, n) {
            Some((r, x)) => Some((acc + r, x)),
            None => None,
        }) == (match parse_exprs(b, q, (n - 1) as nat) {
            Some((r, x)) => Some((acc.push(e) + r, x)),
            None => None,
        }),
{
    match parse_exprs(b, q, (n - 1) as nat) {
        Some((r, x)) => {
            assert(acc + (seq![e] + r) =~= acc.push(e) + r);
        },
        None => {},
    }
}

fn get_exprs(b: &[u8], p: usize, n: u64) -> (r: Option<(Vec<ChExpr>, usize)>)
    requires
        p <= b@.len(),
    ensures
        match parse_exprs(b@, p as int, n as nat) {
            Some((es, q)) => q <= b@.len() && match r {
                Some((v, q2)) => exprs_view(v@) == es && q2 == q,
                None => false,
            },
            None => r is None,
        },
{
    let mut v: Vec<ChExpr> = Vec::new();
    let mut pos = p;
    let mut i: u64 = 0;
    assert(exprs_view(v@) + seq![] =~= seq![]);
    while i < n
        invariant
            i <= n,
            pos <= b@.len(),
            (match parse_exprs(b@, p as int, n as nat) {
                Some((r, x)) => Some((seq![] + r, x)),
                None => None,
            }) == (match parse_exprs(b@, pos as int, (n - i) as nat) {
                Some((r, x)) => Some((exprs_view(v@) + r, x)),
                None => None,
            }),
        decreases n - i,
    {
        match get_expr(b, pos) {
            Some((e, q)) => {
                proof {
                    lemma_exprs_step(b@, pos as int, (n - i) as nat, exprs_view(v@), e@, q as int);
                }
                let ghost before = v@;
                v.push(e);
                assert(exprs_view(v@) =~= exprs_view(before).push(e@));
                pos = q;
                i = i + 1;
            },
            None => {
                return None;
            },
        }
    }
    assert(exprs_view(v@) + seq![] =~= exprs_view(v@));
    proof {
        match parse_exprs(b@, p as int, n as nat) {
            Some((r, x)) => {
                assert(seq![] + r =~= r);
            },
            None => {},
        }
    }
    Some((v, pos))
}

/// The chapter whose bytes are exactly `bytes`, or `None` where `bytes` is
/// not the encoding of a chapter.
pub fn decode(bytes: &[u8]) -> (r: Option<Chapter>)
    ensures
        match parse_chapter(bytes@) {
            Some(c) => r is Some && r->0@ == c,
            None => r is None,
        },
        r is Some ==> bytes@ == enc_chapter(r->0@),
        r is None <==> forall|c: ChapterV| chapter_fits(c) ==> bytes@ != enc_chapter(c),
{
    proof {
        assert forall|c: ChapterV| parse_chapter(bytes@) == Some(c) <==> (bytes@ == enc_chapter(c)
            && chapter_fits(c)) by {
            lemma_decode_exact(bytes@, c);
        }
    }
    let (voice, q) = match get_str(bytes, 0) {
        Some(t) => t,
        None => return None,
    };
    let (n, q2) = match get_len(bytes, q) {
        Some(t) => t,
        None => return None,
    };
    let (content, q3) = match get_exprs(bytes, q2, n) {
        Some(t) => t,
        None => return None,
    };
    if q3 == bytes.len() {
        Some(Chapter { voice, content })
    } else {
        None
    }
}

} // verus!
