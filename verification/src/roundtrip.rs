//! The round-trip law: decoding the canonical encoding of a response model
//! gives back exactly that model.

use vstd::prelude::*;

use crate::json::{
    cons_char, decode_spec, digit_char, digits_chars, digits_end, digits_val, encode_spec, esc_seq,
    finish_sentence, finish_smart, finish_top, flat, is_null_at,
    escape, inner_paras, inner_sents, inner_strs, int_chars, is_digit, para_chars, paras_chars,
    parse_paragraph, parse_paragraph_items, parse_paragraphs, parse_paragraphs_items,
    parse_sentence, parse_sentence_members, parse_smart, parse_smart_members, parse_strings,
    parse_strings_items, parse_top, parse_top_members, pow10, quoted, sent_chars, smart_chars, spec_i32,
    spec_string, spec_ws, string_body,
};
use crate::ydresponse::{ResponseModel, SentenceModel, SmartModel};

verus! {

proof fn lemma_escape_concat(a: Seq<char>, b: Seq<char>)
    ensures
        escape(a + b) == escape(a) + escape(b),
    decreases b.len(),
{
    if b.len() == 0 {
        assert(a + b =~= a);
        assert(escape(a) + escape(b) =~= escape(a));
    } else {
        lemma_escape_concat(a, b.drop_last());
        assert((a + b).drop_last() =~= a + b.drop_last());
        assert((a + b).last() == b.last());
        assert(escape(a) + escape(b.drop_last()) + esc_seq(b.last()) =~= escape(a) + escape(b));
    }
}

proof fn lemma_escape_head(t: Seq<char>)
    requires
        t.len() > 0,
    ensures
        escape(t) == esc_seq(t[0]) + escape(t.drop_first()),
{
    let a = seq![t[0]];
    let b = t.drop_first();
    assert(t =~= a + b);
    lemma_escape_concat(a, b);
    assert(a.drop_last() =~= Seq::<char>::empty());
    assert(a.last() == t[0]);
    assert(escape(a) == escape(Seq::<char>::empty()) + esc_seq(t[0]));
    assert(Seq::<char>::empty() + esc_seq(t[0]) =~= esc_seq(t[0]));
}

proof fn lemma_string_body_at(s: Seq<char>, i: int, t: Seq<char>)
    requires
        0 <= i,
        i + escape(t).len() + 1 <= s.len(),
        forall|k: int| 0 <= k < escape(t).len() ==> s[i + k] == escape(t)[k],
        s[i + escape(t).len()] == '"',
    ensures
        string_body(s, i) == Some((t, i + escape(t).len() + 1)),
    decreases t.len(),
{
    if t.len() == 0 {
        assert(escape(t).len() == 0);
        assert(s[i] == '"');
    } else {
        let c = t[0];
        let rest = t.drop_first();
        lemma_escape_head(t);
        let e0 = esc_seq(c);
        let er = escape(rest);
        assert(escape(t) == e0 + er);
        assert(escape(t).len() == e0.len() + er.len());
        if c == '"' || c == '\\' {
            assert(e0 =~= seq!['\\', c]);
            assert(s[i] == escape(t)[0] && escape(t)[0] == '\\');
            assert(s[i + 1] == escape(t)[1] && escape(t)[1] == c);
            assert forall|k: int| 0 <= k < er.len() implies s[i + 2 + k] == er[k] by {
                assert(escape(t)[k + 2] == er[k]);
                assert(s[i + (k + 2)] == escape(t)[k + 2]);
            }
            assert(s[i + 2 + er.len()] == '"');
            lemma_string_body_at(s, i + 2, rest);
            assert(string_body(s, i) == cons_char(c, string_body(s, i + 2)));
            assert(Seq::<char>::empty().push(c) + rest =~= t);
        } else {
            assert(e0 =~= seq![c]);
            assert(s[i] == escape(t)[0] && escape(t)[0] == c);
            assert forall|k: int| 0 <= k < er.len() implies s[i + 1 + k] == er[k] by {
                assert(escape(t)[k + 1] == er[k]);
                assert(s[i + (k + 1)] == escape(t)[k + 1]);
            }
            assert(s[i + 1 + er.len()] == '"');
            lemma_string_body_at(s, i + 1, rest);
            assert(string_body(s, i) == cons_char(c, string_body(s, i + 1)));
            assert(Seq::<char>::empty().push(c) + rest =~= t);
        }
    }
}

/// The length of the quoted form of a text.
pub open spec fn qlen(t: Seq<char>) -> int {
    escape(t).len() as int + 2
}

proof fn lemma_quoted_at(s: Seq<char>, i: int, t: Seq<char>)
    requires
        0 <= i,
        i + qlen(t) <= s.len(),
        forall|k: int| 0 <= k < qlen(t) ==> s[i + k] == quoted(t)[k],
    ensures
        spec_string(s, i) == Some((t, i + qlen(t))),
{
    assert(quoted(t).len() == qlen(t));
    assert(s[i] == quoted(t)[0] && quoted(t)[0] == '"');
    assert forall|k: int| 0 <= k < escape(t).len() implies s[i + 1 + k] == escape(t)[k] by {
        assert(quoted(t)[k + 1] == escape(t)[k]);
        assert(s[i + (k + 1)] == quoted(t)[k + 1]);
    }
    assert(s[i + 1 + escape(t).len()] == quoted(t)[qlen(t) - 1]);
    assert(quoted(t)[qlen(t) - 1] == '"');
    lemma_string_body_at(s, i + 1, t);
}

proof fn lemma_escape_plain(t: Seq<char>)
    requires
        forall|k: int| 0 <= k < t.len() ==> t[k] != '"' && t[k] != '\\',
    ensures
        escape(t) == t,
    decreases t.len(),
{
    if t.len() > 0 {
        lemma_escape_plain(t.drop_last());
        assert(esc_seq(t.last()) =~= seq![t.last()]);
        assert(t.drop_last() + seq![t.last()] =~= t);
    }
}

proof fn lemma_digits_shape(v: int)
    requires
        v >= 0,
    ensures
        digits_chars(v).len() >= 1,
        forall|k: int| 0 <= k < digits_chars(v).len() ==> is_digit(digits_chars(v)[k]),
        v >= 1 ==> digits_chars(v)[0] != '0',
        v <= 9 ==> digits_chars(v).len() == 1,
    decreases v,
{
    if v < 10 {
        assert(digits_chars(v) =~= seq![digit_char(v)]);
        assert(digit_char(v) as u32 == 48 + v);
        assert(is_digit(digit_char(v)));
        if v >= 1 {
            assert(digit_char(v) as u32 != '0' as u32);
        }
    } else {
        lemma_digits_shape(v / 10);
        let d = digits_chars(v);
        let p = digits_chars(v / 10);
        assert(d == p.push(digit_char(v % 10)));
        assert(d[0] == p[0]);
        assert(digit_char(v % 10) as u32 == 48 + v % 10);
        assert forall|k: int| 0 <= k < d.len() implies is_digit(d[k]) by {
            if k < p.len() {
                assert(d[k] == p[k]);
            } else {
                assert(d[k] == digit_char(v % 10));
            }
        }
    }
}

proof fn lemma_digits_len(v: int, n: nat)
    requires
        v >= 0,
        n >= 1,
        v < pow10(n),
    ensures
        digits_chars(v).len() <= n,
    decreases v,
{
    if v < 10 {
    } else {
        crate::json::lemma_pow10_pos((n - 1) as nat);
        if n == 1 {
            assert(pow10(1) == 10) by {
                reveal_with_fuel(pow10, 3);
            }
            assert(false);
        }
        assert(pow10(n) == 10 * pow10((n - 1) as nat));
        assert(v / 10 < pow10((n - 1) as nat)) by (nonlinear_arith)
            requires
                v >= 0,
                pow10((n - 1) as nat) >= 1,
                v < 10 * pow10((n - 1) as nat),
        ;
        lemma_digits_len(v / 10, (n - 1) as nat);
    }
}

proof fn lemma_digits_end_at(s: Seq<char>, i: int, len_: int)
    requires
        0 <= i,
        0 <= len_,
        i + len_ <= s.len(),
        forall|k: int| 0 <= k < len_ ==> is_digit(#[trigger] s[i + k]),
        i + len_ == s.len() || !is_digit(s[i + len_]),
    ensures
        digits_end(s, i) == i + len_,
    decreases len_,
{
    if len_ == 0 {
    } else {
        assert(is_digit(s[i + 0]));
        assert forall|k: int| 0 <= k < len_ - 1 implies is_digit(#[trigger] s[i + 1 + k]) by {
            assert(s[i + 1 + k] == s[i + (k + 1)]);
        }
        lemma_digits_end_at(s, i + 1, len_ - 1);
    }
}

proof fn lemma_digits_val_snoc(s: Seq<char>, i: int, k: int, acc: int)
    requires
        0 <= i <= k,
        k < s.len(),
        forall|q: int| 0 <= q < k + 1 - i ==> is_digit(#[trigger] s[i + q]),
    ensures
        digits_val(s, i, k + 1, acc) == 10 * digits_val(s, i, k, acc) + (s[k] as u32 - 48),
    decreases k - i,
{
    if i == k {
        assert(digits_val(s, i, k + 1, acc) == digits_val(s, i + 1, k + 1, acc * 10 + (s[i] as u32
            - 48)));
        assert(digits_val(s, i + 1, k + 1, acc * 10 + (s[i] as u32 - 48)) == acc * 10 + (s[i]
            as u32 - 48));
        assert(digits_val(s, i, k, acc) == acc);
    } else {
        assert(is_digit(s[i + 0]));
        let acc2 = acc * 10 + (s[i] as u32 - 48);
        assert(digits_val(s, i, k + 1, acc) == digits_val(s, i + 1, k + 1, acc2));
        assert(digits_val(s, i, k, acc) == digits_val(s, i + 1, k, acc2));
        assert forall|q: int| 0 <= q < k - i implies is_digit(#[trigger] s[i + 1 + q]) by {
            assert(s[i + 1 + q] == s[i + (q + 1)]);
        }
        lemma_digits_val_snoc(s, i + 1, k, acc2);
    }
}

proof fn lemma_digits_val_at(s: Seq<char>, i: int, v: int)
    requires
        v >= 0,
        0 <= i,
        i + digits_chars(v).len() <= s.len(),
        forall|k: int| 0 <= k < digits_chars(v).len() ==> s[i + k] == digits_chars(v)[k],
    ensures
        digits_val(s, i, i + digits_chars(v).len(), 0) == v,
    decreases v,
{
    lemma_digits_shape(v);
    let len_: int = digits_chars(v).len() as int;
    assert forall|k: int| 0 <= k < len_ implies is_digit(#[trigger] s[i + k]) by {
        assert(s[i + k] == digits_chars(v)[k]);
    }
    if v < 10 {
        assert(len_ == 1);
        assert(s[i + 0] == digits_chars(v)[0]);
        assert(digits_val(s, i, i + 1, 0) == digits_val(s, i + 1, i + 1, 0 * 10 + (s[i] as u32
            - 48)));
        assert(s[i] == digit_char(v));
        assert(digit_char(v) as u32 == 48 + v);
    } else {
        let p = digits_chars(v / 10);
        assert(digits_chars(v) == p.push(digit_char(v % 10)));
        lemma_digits_shape(v / 10);
        assert forall|k: int| 0 <= k < p.len() implies s[i + k] == p[k] by {
            assert(digits_chars(v)[k] == p[k]);
        }
        lemma_digits_val_at(s, i, v / 10);
        lemma_digits_val_snoc(s, i, i + len_ - 1, 0);
        assert(s[i + len_ - 1] == digits_chars(v)[len_ - 1]);
        assert(digits_chars(v)[len_ - 1] == digit_char(v % 10));
        assert(digit_char(v % 10) as u32 == 48 + v % 10);
        assert(v % 10 >= 0 && v == 10 * (v / 10) + v % 10) by (nonlinear_arith)
            requires
                v >= 10,
        ;
    }
}

/// The length of the decimal rendering of an integer.
pub open spec fn ilen(n: int) -> int {
    int_chars(n).len() as int
}

proof fn lemma_i32_at(s: Seq<char>, i: int, n: int)
    requires
        -0x8000_0000 <= n <= 0x7fff_ffff,
        0 <= i,
        i + ilen(n) < s.len(),
        forall|k: int| 0 <= k < ilen(n) ==> s[i + k] == int_chars(n)[k],
        !is_digit(s[i + ilen(n)]),
        s[i + ilen(n)] != '.',
        s[i + ilen(n)] != 'e',
        s[i + ilen(n)] != 'E',
    ensures
        spec_i32(s, i) == Some((n, i + ilen(n))),
{
    assert(pow10(10) == 10000000000) by {
        reveal_with_fuel(pow10, 12);
    }
    if n >= 0 {
        assert(int_chars(n) == digits_chars(n));
        lemma_digits_shape(n);
        assert(s[i + 0] == int_chars(n)[0]);
        assert(s[i] == digits_chars(n)[0]);
        assert(is_digit(s[i]));
        assert(s[i] as u32 != '-' as u32);
        assert forall|k: int| 0 <= k < ilen(n) implies is_digit(#[trigger] s[i + k]) by {
            assert(s[i + k] == int_chars(n)[k]);
        }
        lemma_digits_end_at(s, i, ilen(n));
        lemma_digits_len(n, 10);
        lemma_digits_val_at(s, i, n);
        if n == 0 {
            assert(digits_chars(0) =~= seq![digit_char(0)]);
        } else {
            assert(s[i] != '0');
        }
    } else {
        let u = -n;
        assert(int_chars(n) == seq!['-'] + digits_chars(u));
        assert(s[i + 0] == int_chars(n)[0]);
        assert(s[i] == int_chars(n)[0] && int_chars(n)[0] == '-');
        lemma_digits_shape(u);
        assert forall|k: int| 0 <= k < digits_chars(u).len() implies s[i + 1 + k] == digits_chars(
            u,
        )[k] by {
            assert(int_chars(n)[k + 1] == digits_chars(u)[k]);
            assert(s[i + (k + 1)] == int_chars(n)[k + 1]);
        }
        assert forall|k: int| 0 <= k < digits_chars(u).len() implies is_digit(
            #[trigger] s[i + 1 + k],
        ) by {
            assert(s[i + 1 + k] == digits_chars(u)[k]);
        }
        assert(s[(i + 1) + digits_chars(u).len()] == s[i + ilen(n)]);
        lemma_digits_end_at(s, i + 1, digits_chars(u).len() as int);
        lemma_digits_len(u, 10);
        lemma_digits_val_at(s, i + 1, u);
        assert(s[i + 1 + 0] == digits_chars(u)[0]);
        assert(s[i + 1] == digits_chars(u)[0]);
        assert(s[i + 1] != '0');
        assert(ilen(n) == 1 + digits_chars(u).len());
    }
}

proof fn lemma_key_src()
    ensures
        escape("src"@) == "src"@,
        qlen("src"@) == 5,
        escape("tgt"@) == "tgt"@,
        qlen("tgt"@) == 5,
        "src"@ != "tgt"@,
{
    reveal_strlit("src");
    reveal_strlit("tgt");
    lemma_escape_plain("src"@);
    lemma_escape_plain("tgt"@);
    assert(("src"@)[0] == 's' && ("tgt"@)[0] == 't');
}

proof fn lemma_sentence_at(s: Seq<char>, i: int, st: SentenceModel, d: nat)
    requires
        0 <= i,
        i + sent_chars(st).len() <= s.len(),
        forall|k: int| 0 <= k < sent_chars(st).len() ==> #[trigger] s[i + k] == sent_chars(st)[k],
        d >= 4,
    ensures
        parse_sentence(s, i, d) == Some((st, i + sent_chars(st).len())),
{
    reveal_strlit("{\"src\":");
    reveal_strlit(",\"tgt\":");
    reveal_strlit("}");
    reveal_strlit("src");
    reveal_strlit("tgt");
    lemma_key_src();
    let r = sent_chars(st);
    let l1 = "{\"src\":"@;
    let l2 = ",\"tgt\":"@;
    let q1 = quoted(st.source);
    let q2 = quoted(st.target);
    let qs = qlen(st.source);
    let qt = qlen(st.target);
    assert(l1.len() == 7 && l2.len() == 7);
    assert(q1.len() == qs && q2.len() == qt);
    assert(r == l1 + q1 + l2 + q2 + "}"@);
    assert(r.len() == 15 + qs + qt);
    // the opening brace and the whitespace-free walk
    assert(s[i + 0] == r[0] && r[0] == '{');
    assert(s[i + 1] == r[1] && r[1] == '"');
    assert(spec_ws(s, i + 1) == i + 1);
    // the "src" key
    assert(quoted("src"@) =~= seq!['"'] + "src"@ + seq!['"']);
    assert forall|k: int| 0 <= k < 5 implies s[i + 1 + k] == quoted("src"@)[k] by {
        assert(s[i + (1 + k)] == r[1 + k]);
    }
    lemma_quoted_at(s, i + 1, "src"@);
    assert(spec_string(s, i + 1) == Some(("src"@, i + 6)));
    assert(s[i + 6] == r[6] && r[6] == ':');
    assert(spec_ws(s, i + 6) == i + 6);
    assert(s[i + 7] == r[7] && r[7] == q1[0] && q1[0] == '"');
    assert(spec_ws(s, i + 7) == i + 7);
    // the source text
    assert forall|k: int| 0 <= k < qs implies s[i + 7 + k] == q1[k] by {
        assert(s[i + (7 + k)] == r[7 + k]);
    }
    lemma_quoted_at(s, i + 7, st.source);
    assert(spec_string(s, i + 7) == Some((st.source, i + 7 + qs)));
    let b = i + 7 + qs;
    assert(s[i + (7 + qs)] == r[7 + qs] && r[7 + qs] == l2[0] && l2[0] == ',');
    assert(s[b] == ',');
    assert(spec_ws(s, b) == b);
    assert(s[i + (8 + qs)] == r[8 + qs] && r[8 + qs] == l2[1] && l2[1] == '"');
    assert(s[b + 1] == '"');
    assert(spec_ws(s, b + 1) == b + 1);
    // the "tgt" key
    assert(quoted("tgt"@) =~= seq!['"'] + "tgt"@ + seq!['"']);
    assert forall|k: int| 0 <= k < 5 implies s[b + 1 + k] == quoted("tgt"@)[k] by {
        assert(s[i + (8 + qs + k)] == r[8 + qs + k]);
        assert(r[8 + qs + k] == l2[1 + k]);
    }
    lemma_quoted_at(s, b + 1, "tgt"@);
    assert(spec_string(s, b + 1) == Some(("tgt"@, b + 6)));
    assert(s[i + (13 + qs)] == r[13 + qs] && r[13 + qs] == l2[6] && l2[6] == ':');
    assert(s[b + 6] == ':');
    assert(spec_ws(s, b + 6) == b + 6);
    assert(s[i + (14 + qs)] == r[14 + qs] && r[14 + qs] == q2[0] && q2[0] == '"');
    assert(s[b + 7] == '"');
    assert(spec_ws(s, b + 7) == b + 7);
    // the target text
    assert forall|k: int| 0 <= k < qt implies s[b + 7 + k] == q2[k] by {
        assert(s[i + (14 + qs + k)] == r[14 + qs + k]);
    }
    lemma_quoted_at(s, b + 7, st.target);
    assert(spec_string(s, b + 7) == Some((st.target, b + 7 + qt)));
    let e = b + 7 + qt;
    assert(s[i + (14 + qs + qt)] == r[14 + qs + qt] && r[14 + qs + qt] == '}');
    assert(s[e] == '}');
    assert(spec_ws(s, e) == e);
    // the parser's walk
    assert(parse_sentence_members(
        s,
        b + 1,
        (d - 2) as nat,
        Some(st.source),
        None,
        false,
    ) == finish_sentence(Some(st.source), Some(st.target), e + 1));
    assert(finish_sentence(Some(st.source), Some(st.target), e + 1) == Some(
        (SentenceModel { source: st.source, target: st.target }, e + 1),
    ));
    assert(SentenceModel { source: st.source, target: st.target } == st);
    assert(parse_sentence_members(s, i + 1, (d - 1) as nat, None, None, true) == Some(
        (st, e + 1),
    ));
}

proof fn lemma_sent_chars_shape(st: SentenceModel)
    ensures
        sent_chars(st).len() >= 15,
        sent_chars(st)[0] == '{',
{
    reveal_strlit("{\"src\":");
    reveal_strlit(",\"tgt\":");
    reveal_strlit("}");
    assert(quoted(st.source).len() >= 2);
    assert(quoted(st.target).len() >= 2);
    assert(sent_chars(st)[0] == ("{\"src\":"@)[0]);
}

proof fn lemma_inner_sents_head(p: Seq<SentenceModel>)
    requires
        p.len() >= 2,
    ensures
        inner_sents(p) == sent_chars(p[0]) + ","@ + inner_sents(p.drop_first()),
    decreases p.len(),
{
    if p.len() == 2 {
        assert(p.drop_last() =~= seq![p[0]]);
        assert(p.drop_first() =~= seq![p[1]]);
        assert(inner_sents(seq![p[0]]) == sent_chars(seq![p[0]][0]));
        assert(inner_sents(seq![p[1]]) == sent_chars(seq![p[1]][0]));
        assert(p.last() == p[1]);
        assert(sent_chars(p[0]) + ","@ + inner_sents(p.drop_first()) =~= inner_sents(p));
    } else {
        lemma_inner_sents_head(p.drop_last());
        assert(p.drop_last()[0] == p[0]);
        assert(p.drop_last().drop_first() =~= p.drop_first().drop_last());
        assert(p.drop_first().last() == p.last());
        assert(p.drop_first().len() >= 2);
        assert(inner_sents(p.drop_first()) == inner_sents(p.drop_first().drop_last()) + ","@
            + sent_chars(p.drop_first().last()));
        assert(sent_chars(p[0]) + ","@ + inner_sents(p.drop_first()) =~= inner_sents(p));
    }
}

proof fn lemma_inner_sents_shape(p: Seq<SentenceModel>)
    requires
        p.len() >= 1,
    ensures
        inner_sents(p).len() >= p.len(),
        inner_sents(p)[0] == '{',
    decreases p.len(),
{
    lemma_sent_chars_shape(p[0]);
    if p.len() == 1 {
    } else {
        lemma_inner_sents_head(p);
        lemma_inner_sents_shape(p.drop_first());
        reveal_strlit(",");
    }
}

proof fn lemma_sent_items_at(s: Seq<char>, i: int, p: Seq<SentenceModel>, d: nat)
    requires
        0 <= i,
        p.len() >= 1,
        i + inner_sents(p).len() + 1 <= s.len(),
        forall|k: int| 0 <= k < inner_sents(p).len() ==> #[trigger] s[i + k] == inner_sents(p)[k],
        s[i + inner_sents(p).len()] == ']',
        d >= p.len() + 5,
    ensures
        parse_paragraph_items(s, i, d) == Some((p, i + inner_sents(p).len() + 1)),
    decreases p.len(),
{
    let r = inner_sents(p);
    let s0 = sent_chars(p[0]);
    if p.len() == 1 {
        assert(r == s0);
        assert forall|k: int| 0 <= k < s0.len() implies #[trigger] s[i + k] == s0[k] by {
            assert(s[i + k] == r[k]);
        }
        lemma_sentence_at(s, i, p[0], (d - 1) as nat);
        let j = i + s0.len();
        assert(s[j] == ']');
        assert(spec_ws(s, j) == j);
        assert(Seq::<SentenceModel>::empty().push(p[0]) =~= p);
    } else {
        lemma_inner_sents_head(p);
        reveal_strlit(",");
        let rest = p.drop_first();
        let ri = inner_sents(rest);
        assert(r.len() == s0.len() + 1 + ri.len());
        assert forall|k: int| 0 <= k < s0.len() implies #[trigger] s[i + k] == s0[k] by {
            assert(s[i + k] == r[k]);
        }
        lemma_sentence_at(s, i, p[0], (d - 1) as nat);
        let j = i + s0.len();
        assert(s[i + (s0.len() as int)] == r[s0.len() as int] && r[s0.len() as int] == ',');
        assert(s[j] == ',');
        assert(spec_ws(s, j) == j);
        lemma_inner_sents_shape(rest);
        assert forall|k: int| 0 <= k < ri.len() implies #[trigger] s[j + 1 + k] == ri[k] by {
            assert(s[i + (s0.len() + 1 + k)] == r[s0.len() + 1 + k]);
            assert(r[s0.len() + 1 + k] == ri[k]);
        }
        assert(s[j + 1 + 0] == ri[0] && ri[0] == '{');
        assert(spec_ws(s, j + 1) == j + 1);
        assert(s[i + (r.len() as int)] == s[j + 1 + ri.len()]);
        assert(s[j + 1 + ri.len()] == ']');
        lemma_sent_items_at(s, j + 1, rest, (d - 1) as nat);
        assert(Seq::<SentenceModel>::empty().push(p[0]) + rest =~= p);
    }
}

proof fn lemma_paragraph_at(s: Seq<char>, i: int, p: Seq<SentenceModel>, d: nat)
    requires
        0 <= i,
        i + inner_sents(p).len() + 2 <= s.len(),
        s[i] == '[',
        forall|k: int| 0 <= k < inner_sents(p).len() ==> #[trigger] s[i + 1 + k] == inner_sents(
            p,
        )[k],
        s[i + 1 + inner_sents(p).len()] == ']',
        d >= p.len() + 6,
    ensures
        parse_paragraph(s, i, d) == Some((p, i + inner_sents(p).len() + 2)),
{
    if p.len() == 0 {
        assert(inner_sents(p).len() == 0);
        assert(s[i + 1] == ']');
        assert(spec_ws(s, i + 1) == i + 1);
        assert(Seq::<SentenceModel>::empty() =~= p);
    } else {
        lemma_inner_sents_shape(p);
        assert(s[i + 1 + 0] == inner_sents(p)[0]);
        assert(s[i + 1] == '{');
        assert(spec_ws(s, i + 1) == i + 1);
        assert forall|k: int| 0 <= k < inner_sents(p).len() implies #[trigger] s[(i + 1) + k]
            == inner_sents(p)[k] by {
            assert(s[i + 1 + k] == inner_sents(p)[k]);
        }
        assert(s[(i + 1) + inner_sents(p).len()] == ']');
        lemma_sent_items_at(s, i + 1, p, (d - 1) as nat);
    }
}

proof fn lemma_para_chars_shape(p: Seq<SentenceModel>)
    ensures
        para_chars(p).len() == inner_sents(p).len() + 2,
        para_chars(p)[0] == '[',
        p.len() <= para_chars(p).len(),
{
    reveal_strlit("[");
    reveal_strlit("]");
    assert(para_chars(p)[0] == ("["@)[0]);
    if p.len() >= 1 {
        lemma_inner_sents_shape(p);
    }
}

proof fn lemma_inner_paras_head(ps: Seq<Seq<SentenceModel>>)
    requires
        ps.len() >= 2,
    ensures
        inner_paras(ps) == para_chars(ps[0]) + ","@ + inner_paras(ps.drop_first()),
    decreases ps.len(),
{
    if ps.len() == 2 {
        assert(ps.drop_last() =~= seq![ps[0]]);
        assert(ps.drop_first() =~= seq![ps[1]]);
        assert(inner_paras(seq![ps[0]]) == para_chars(seq![ps[0]][0]));
        assert(inner_paras(seq![ps[1]]) == para_chars(seq![ps[1]][0]));
        assert(ps.last() == ps[1]);
        assert(para_chars(ps[0]) + ","@ + inner_paras(ps.drop_first()) =~= inner_paras(ps));
    } else {
        lemma_inner_paras_head(ps.drop_last());
        assert(ps.drop_last()[0] == ps[0]);
        assert(ps.drop_last().drop_first() =~= ps.drop_first().drop_last());
        assert(ps.drop_first().last() == ps.last());
        assert(ps.drop_first().len() >= 2);
        assert(inner_paras(ps.drop_first()) == inner_paras(ps.drop_first().drop_last()) + ","@
            + para_chars(ps.drop_first().last()));
        assert(para_chars(ps[0]) + ","@ + inner_paras(ps.drop_first()) =~= inner_paras(ps));
    }
}

proof fn lemma_inner_paras_shape(ps: Seq<Seq<SentenceModel>>)
    requires
        ps.len() >= 1,
    ensures
        inner_paras(ps).len() >= ps.len(),
        inner_paras(ps).len() >= para_chars(ps[0]).len(),
        inner_paras(ps)[0] == '[',
    decreases ps.len(),
{
    lemma_para_chars_shape(ps[0]);
    if ps.len() == 1 {
    } else {
        lemma_inner_paras_head(ps);
        lemma_inner_paras_shape(ps.drop_first());
        reveal_strlit(",");
    }
}

proof fn lemma_paras_items_at(s: Seq<char>, i: int, ps: Seq<Seq<SentenceModel>>, d: nat)
    requires
        0 <= i,
        ps.len() >= 1,
        i + inner_paras(ps).len() + 1 <= s.len(),
        forall|k: int| 0 <= k < inner_paras(ps).len() ==> #[trigger] s[i + k] == inner_paras(
            ps,
        )[k],
        s[i + inner_paras(ps).len()] == ']',
        d >= inner_paras(ps).len() + 7,
    ensures
        parse_paragraphs_items(s, i, d) == Some((ps, i + inner_paras(ps).len() + 1)),
    decreases ps.len(),
{
    reveal_strlit("[");
    reveal_strlit("]");
    let r = inner_paras(ps);
    let p0 = para_chars(ps[0]);
    lemma_para_chars_shape(ps[0]);
    if ps.len() == 1 {
        assert(r == p0);
        assert(s[i + 0] == r[0] && r[0] == '[');
        assert forall|k: int| 0 <= k < inner_sents(ps[0]).len() implies #[trigger] s[i + 1 + k]
            == inner_sents(ps[0])[k] by {
            assert(s[i + (1 + k)] == r[1 + k]);
            assert(r[1 + k] == inner_sents(ps[0])[k]);
        }
        assert(s[i + (1 + inner_sents(ps[0]).len() as int)] == r[1 + inner_sents(ps[0]).len() as int]);
        assert(r[1 + inner_sents(ps[0]).len() as int] == ']');
        assert(s[i + 1 + inner_sents(ps[0]).len() as int] == ']');
        lemma_paragraph_at(s, i, ps[0], (d - 1) as nat);
        let j = i + p0.len();
        assert(s[j] == ']');
        assert(spec_ws(s, j) == j);
        assert(Seq::<Seq<SentenceModel>>::empty().push(ps[0]) =~= ps);
    } else {
        lemma_inner_paras_head(ps);
        reveal_strlit(",");
        let rest = ps.drop_first();
        let ri = inner_paras(rest);
        assert(r.len() == p0.len() + 1 + ri.len());
        assert(s[i + 0] == r[0] && r[0] == '[');
        assert forall|k: int| 0 <= k < inner_sents(ps[0]).len() implies #[trigger] s[i + 1 + k]
            == inner_sents(ps[0])[k] by {
            assert(s[i + (1 + k)] == r[1 + k]);
            assert(r[1 + k] == p0[1 + k]);
            assert(p0[1 + k] == inner_sents(ps[0])[k]);
        }
        assert(s[i + (1 + inner_sents(ps[0]).len() as int)] == r[1 + inner_sents(ps[0]).len() as int]);
        assert(r[1 + inner_sents(ps[0]).len() as int] == p0[1 + inner_sents(ps[0]).len() as int]);
        assert(p0[1 + inner_sents(ps[0]).len() as int] == ']');
        assert(s[i + 1 + inner_sents(ps[0]).len() as int] == ']');
        lemma_paragraph_at(s, i, ps[0], (d - 1) as nat);
        let j = i + p0.len();
        assert(s[i + (p0.len() as int)] == r[p0.len() as int] && r[p0.len() as int] == ',');
        assert(s[j] == ',');
        assert(spec_ws(s, j) == j);
        lemma_inner_paras_shape(rest);
        assert forall|k: int| 0 <= k < ri.len() implies #[trigger] s[j + 1 + k] == ri[k] by {
            assert(s[i + (p0.len() + 1 + k)] == r[p0.len() + 1 + k]);
            assert(r[p0.len() + 1 + k] == ri[k]);
        }
        assert(s[j + 1 + 0] == ri[0] && ri[0] == '[');
        assert(spec_ws(s, j + 1) == j + 1);
        assert(s[i + (r.len() as int)] == s[j + 1 + ri.len()]);
        assert(s[j + 1 + ri.len()] == ']');
        lemma_paras_items_at(s, j + 1, rest, (d - 1) as nat);
        assert(Seq::<Seq<SentenceModel>>::empty().push(ps[0]) + rest =~= ps);
    }
}

proof fn lemma_paras_at(s: Seq<char>, i: int, ps: Seq<Seq<SentenceModel>>, d: nat)
    requires
        0 <= i,
        i + paras_chars(ps).len() <= s.len(),
        forall|k: int| 0 <= k < paras_chars(ps).len() ==> #[trigger] s[i + k] == paras_chars(
            ps,
        )[k],
        d >= paras_chars(ps).len() + 8,
    ensures
        parse_paragraphs(s, i, d) == Some((ps, i + paras_chars(ps).len())),
{
    reveal_strlit("[");
    reveal_strlit("]");
    let r = paras_chars(ps);
    let inner = inner_paras(ps);
    assert(r.len() == inner.len() + 2);
    assert(s[i + 0] == r[0] && r[0] == '[');
    if ps.len() == 0 {
        assert(inner.len() == 0);
        assert(s[i + 1] == r[1] && r[1] == ']');
        assert(spec_ws(s, i + 1) == i + 1);
        assert(Seq::<Seq<SentenceModel>>::empty() =~= ps);
    } else {
        lemma_inner_paras_shape(ps);
        assert(s[i + 1] == r[1] && r[1] == inner[0] && inner[0] == '[');
        assert(spec_ws(s, i + 1) == i + 1);
        assert forall|k: int| 0 <= k < inner.len() implies #[trigger] s[(i + 1) + k] == inner[k] by {
            assert(s[i + (1 + k)] == r[1 + k]);
            assert(r[1 + k] == inner[k]);
        }
        assert(s[i + (1 + inner.len() as int)] == r[1 + inner.len() as int]);
        assert(r[1 + inner.len() as int] == ']');
        assert(s[(i + 1) + inner.len()] == ']');
        lemma_paras_items_at(s, i + 1, ps, (d - 1) as nat);
    }
}

proof fn lemma_inner_strs_head(es: Seq<Seq<char>>)
    requires
        es.len() >= 2,
    ensures
        inner_strs(es) == quoted(es[0]) + ","@ + inner_strs(es.drop_first()),
    decreases es.len(),
{
    if es.len() == 2 {
        assert(es.drop_last() =~= seq![es[0]]);
        assert(es.drop_first() =~= seq![es[1]]);
        assert(inner_strs(seq![es[0]]) == quoted(seq![es[0]][0]));
        assert(inner_strs(seq![es[1]]) == quoted(seq![es[1]][0]));
        assert(es.last() == es[1]);
        assert(quoted(es[0]) + ","@ + inner_strs(es.drop_first()) =~= inner_strs(es));
    } else {
        lemma_inner_strs_head(es.drop_last());
        assert(es.drop_last()[0] == es[0]);
        assert(es.drop_last().drop_first() =~= es.drop_first().drop_last());
        assert(es.drop_first().last() == es.last());
        assert(es.drop_first().len() >= 2);
        assert(inner_strs(es.drop_first()) == inner_strs(es.drop_first().drop_last()) + ","@
            + quoted(es.drop_first().last()));
        assert(quoted(es[0]) + ","@ + inner_strs(es.drop_first()) =~= inner_strs(es));
    }
}

proof fn lemma_inner_strs_shape(es: Seq<Seq<char>>)
    requires
        es.len() >= 1,
    ensures
        inner_strs(es).len() >= es.len(),
        inner_strs(es)[0] == '"',
    decreases es.len(),
{
    assert(quoted(es[0])[0] == '"');
    assert(quoted(es[0]).len() >= 2);
    if es.len() == 1 {
    } else {
        lemma_inner_strs_head(es);
        lemma_inner_strs_shape(es.drop_first());
        reveal_strlit(",");
    }
}

proof fn lemma_strs_items_at(s: Seq<char>, i: int, es: Seq<Seq<char>>, d: nat)
    requires
        0 <= i,
        es.len() >= 1,
        i + inner_strs(es).len() + 1 <= s.len(),
        forall|k: int| 0 <= k < inner_strs(es).len() ==> #[trigger] s[i + k] == inner_strs(es)[k],
        s[i + inner_strs(es).len()] == ']',
        d >= es.len() + 2,
    ensures
        parse_strings_items(s, i, d) == Some((es, i + inner_strs(es).len() + 1)),
    decreases es.len(),
{
    let r = inner_strs(es);
    let q0 = quoted(es[0]);
    if es.len() == 1 {
        assert(r == q0);
        assert forall|k: int| 0 <= k < qlen(es[0]) implies #[trigger] s[i + k] == q0[k] by {
            assert(s[i + k] == r[k]);
        }
        lemma_quoted_at(s, i, es[0]);
        let j = i + q0.len();
        assert(s[j] == ']');
        assert(spec_ws(s, j) == j);
        assert(Seq::<Seq<char>>::empty().push(es[0]) =~= es);
    } else {
        lemma_inner_strs_head(es);
        reveal_strlit(",");
        let rest = es.drop_first();
        let ri = inner_strs(rest);
        assert(r.len() == q0.len() + 1 + ri.len());
        assert forall|k: int| 0 <= k < qlen(es[0]) implies #[trigger] s[i + k] == q0[k] by {
            assert(s[i + k] == r[k]);
        }
        lemma_quoted_at(s, i, es[0]);
        let j = i + q0.len();
        assert(s[i + (q0.len() as int)] == r[q0.len() as int] && r[q0.len() as int] == ',');
        assert(s[j] == ',');
        assert(spec_ws(s, j) == j);
        lemma_inner_strs_shape(rest);
        assert forall|k: int| 0 <= k < ri.len() implies #[trigger] s[j + 1 + k] == ri[k] by {
            assert(s[i + (q0.len() + 1 + k)] == r[q0.len() + 1 + k]);
            assert(r[q0.len() + 1 + k] == ri[k]);
        }
        assert(s[j + 1 + 0] == ri[0] && ri[0] == '"');
        assert(spec_ws(s, j + 1) == j + 1);
        assert(s[i + (r.len() as int)] == s[j + 1 + ri.len()]);
        assert(s[j + 1 + ri.len()] == ']');
        lemma_strs_items_at(s, j + 1, rest, (d - 1) as nat);
        assert(Seq::<Seq<char>>::empty().push(es[0]) + rest =~= es);
    }
}

proof fn lemma_strs_arr_at(s: Seq<char>, i: int, es: Seq<Seq<char>>, d: nat)
    requires
        0 <= i,
        i + inner_strs(es).len() + 2 <= s.len(),
        s[i] == '[',
        forall|k: int| 0 <= k < inner_strs(es).len() ==> #[trigger] s[i + 1 + k] == inner_strs(
            es,
        )[k],
        s[i + 1 + inner_strs(es).len()] == ']',
        d >= es.len() + 3,
    ensures
        parse_strings(s, i, d) == Some((es, i + inner_strs(es).len() + 2)),
{
    if es.len() == 0 {
        assert(inner_strs(es).len() == 0);
        assert(s[i + 1] == ']');
        assert(spec_ws(s, i + 1) == i + 1);
        assert(Seq::<Seq<char>>::empty() =~= es);
    } else {
        lemma_inner_strs_shape(es);
        assert(s[i + 1 + 0] == inner_strs(es)[0]);
        assert(s[i + 1] == '"');
        assert(spec_ws(s, i + 1) == i + 1);
        assert forall|k: int| 0 <= k < inner_strs(es).len() implies #[trigger] s[(i + 1) + k]
            == inner_strs(es)[k] by {
            assert(s[i + 1 + k] == inner_strs(es)[k]);
        }
        assert(s[(i + 1) + inner_strs(es).len()] == ']');
        lemma_strs_items_at(s, i + 1, es, (d - 1) as nat);
    }
}

proof fn lemma_int_chars_shape(n: int)
    ensures
        int_chars(n).len() >= 1,
        !crate::json::is_ws(int_chars(n)[0]),
{
    if n < 0 {
        assert(int_chars(n)[0] == '-');
        assert('-' as u32 == 45);
    } else {
        lemma_digits_shape(n);
        assert(int_chars(n)[0] == digits_chars(n)[0]);
        assert(is_digit(int_chars(n)[0]));
    }
}

#[verifier::rlimit(60)]
proof fn lemma_smart_at(s: Seq<char>, i: int, sm: SmartModel, d: nat)
    requires
        -0x8000_0000 <= sm.typ <= 0x7fff_ffff,
        0 <= i,
        i + smart_chars(sm).len() <= s.len(),
        forall|k: int| 0 <= k < smart_chars(sm).len() ==> #[trigger] s[i + k] == smart_chars(
            sm,
        )[k],
        d >= sm.entries.len() + 8,
    ensures
        parse_smart(s, i, d) == Some((sm, i + smart_chars(sm).len())),
{
    reveal_strlit("{\"entries\":[");
    reveal_strlit("],\"type\":");
    reveal_strlit("}");
    reveal_strlit("entries");
    reveal_strlit("type");
    lemma_escape_plain("entries"@);
    lemma_escape_plain("type"@);
    let r = smart_chars(sm);
    let l1 = "{\"entries\":["@;
    let l2 = "],\"type\":"@;
    let inner = inner_strs(sm.entries);
    let il: int = inner.len() as int;
    let ic = int_chars(sm.typ);
    assert(l1.len() == 12 && l2.len() == 9);
    assert(r == l1 + inner + l2 + ic + "}"@);
    assert(r.len() == 22 + il + ic.len());
    assert(s[i + 0] == r[0] && r[0] == '{');
    assert(s[i + 1] == r[1] && r[1] == '"');
    assert(spec_ws(s, i + 1) == i + 1);
    assert(quoted("entries"@) =~= seq!['"'] + "entries"@ + seq!['"']);
    assert(qlen("entries"@) == 9);
    assert forall|k: int| 0 <= k < 9 implies s[i + 1 + k] == quoted("entries"@)[k] by {
        assert(s[i + (1 + k)] == r[1 + k]);
    }
    lemma_quoted_at(s, i + 1, "entries"@);
    assert(spec_string(s, i + 1) == Some(("entries"@, i + 10)));
    assert(s[i + 10] == r[10] && r[10] == ':');
    assert(spec_ws(s, i + 10) == i + 10);
    assert(s[i + 11] == r[11] && r[11] == '[');
    assert(spec_ws(s, i + 11) == i + 11);
    assert forall|k: int| 0 <= k < il implies #[trigger] s[(i + 11) + 1 + k] == inner[k] by {
        assert(s[i + (12 + k)] == r[12 + k]);
        assert(r[12 + k] == inner[k]);
    }
    assert(s[i + (12 + il)] == r[12 + il] && r[12 + il] == l2[0] && l2[0] == ']');
    assert(s[(i + 11) + 1 + inner.len()] == ']');
    lemma_strs_arr_at(s, i + 11, sm.entries, (d - 2) as nat);
    assert(parse_strings(s, i + 11, (d - 2) as nat) == Some((sm.entries, i + 13 + il)));
    let b = i + 13 + il;
    assert(s[i + (13 + il)] == r[13 + il] && r[13 + il] == l2[1] && l2[1] == ',');
    assert(s[b] == ',');
    assert(spec_ws(s, b) == b);
    assert(s[i + (14 + il)] == r[14 + il] && r[14 + il] == l2[2] && l2[2] == '"');
    assert(s[b + 1] == '"');
    assert(spec_ws(s, b + 1) == b + 1);
    assert(quoted("type"@) =~= seq!['"'] + "type"@ + seq!['"']);
    assert(qlen("type"@) == 6);
    assert forall|k: int| 0 <= k < 6 implies s[b + 1 + k] == quoted("type"@)[k] by {
        assert(s[i + (14 + il + k)] == r[14 + il + k]);
        assert(r[14 + il + k] == l2[2 + k]);
    }
    lemma_quoted_at(s, b + 1, "type"@);
    assert(spec_string(s, b + 1) == Some(("type"@, b + 7)));
    assert("type"@ != "entries"@);
    assert(s[i + (20 + il)] == r[20 + il] && r[20 + il] == l2[8] && l2[8] == ':');
    assert(s[b + 7] == ':');
    assert(spec_ws(s, b + 7) == b + 7);
    lemma_int_chars_shape(sm.typ);
    assert(s[i + (21 + il)] == r[21 + il] && r[21 + il] == ic[0]);
    assert(s[b + 8] == ic[0]);
    assert(spec_ws(s, b + 8) == b + 8);
    assert forall|k: int| 0 <= k < ic.len() implies #[trigger] s[(i + 21 + il) + k] == ic[k] by {
        assert(s[i + (21 + il + k)] == r[21 + il + k]);
        assert(r[21 + il + k] == ic[k]);
    }
    let e = i + 21 + il + ic.len();
    assert(s[i + (21 + il + ic.len() as int)] == r[21 + il + ic.len() as int]);
    assert(r[21 + il + ic.len() as int] == '}');
    assert(s[(i + 21 + il) + ic.len()] == '}');
    assert(!is_digit('}') && '}' != '.' && '}' != 'e' && '}' != 'E') by {
        assert('}' as u32 == 125);
    }
    lemma_i32_at(s, i + 21 + il, sm.typ);
    assert(spec_i32(s, b + 8) == Some((sm.typ, e)));
    assert(s[e] == '}');
    assert(spec_ws(s, e) == e);
    assert(parse_smart_members(
        s,
        b + 1,
        (d - 2) as nat,
        Some(sm.entries),
        None,
        false,
    ) == finish_smart(Some(sm.entries), Some(sm.typ), e + 1));
    assert(SmartModel { entries: sm.entries, typ: sm.typ } == sm);
    assert(parse_smart_members(s, i + 1, (d - 1) as nat, None, None, true) == Some((sm, e + 1)));
}

/// A model whose integer fields fit the wire's 32-bit range; every decoded
/// response satisfies this.
pub open spec fn encodable(m: ResponseModel) -> bool {
    &&& -0x8000_0000 <= m.error_code <= 0x7fff_ffff
    &&& match m.smart {
        Some(sm) => -0x8000_0000 <= sm.typ <= 0x7fff_ffff,
        None => true,
    }
}

pub open spec fn trc_of(m: ResponseModel) -> Seq<char> {
    match m.translate {
        Some(ps) => paras_chars(ps),
        None => "null"@,
    }
}

pub open spec fn smc_of(m: ResponseModel) -> Seq<char> {
    match m.smart {
        Some(x) => smart_chars(x),
        None => "null"@,
    }
}

pub open spec fn tr_state(m: ResponseModel) -> Option<Option<Seq<Seq<SentenceModel>>>> {
    match m.translate {
        Some(ps) => Some(Some(ps)),
        None => Some(None),
    }
}

#[verifier::rlimit(80)]
proof fn lemma_top_member3(s: Seq<char>, i: int, m: ResponseModel, d: nat)
    requires
        encodable(m),
        0 <= i,
        i + encode_spec(m).len() <= s.len(),
        forall|k: int| 0 <= k < encode_spec(m).len() ==> #[trigger] s[i + k] == encode_spec(m)[k],
        d >= encode_spec(m).len() + 8,
    ensures
        parse_top_members(
            s,
            i + 33 + int_chars(m.error_code).len() + trc_of(m).len(),
            d,
            Some(m.error_code),
            tr_state(m),
            None,
            false,
        ) == Some((m, i + encode_spec(m).len())),
{
    reveal_strlit("{\"errorCode\":");
    reveal_strlit(",\"translateResult\":");
    reveal_strlit(",\"smartResult\":");
    reveal_strlit("}");
    reveal_strlit("null");
    reveal_strlit("{\"entries\":[");
    reveal_strlit("smartResult");
    reveal_strlit("errorCode");
    reveal_strlit("translateResult");
    lemma_escape_plain("errorCode"@);
    lemma_escape_plain("translateResult"@);
    lemma_escape_plain("smartResult"@);
    let r = encode_spec(m);
    let l1 = "{\"errorCode\":"@;
    let l2 = ",\"translateResult\":"@;
    let l3 = ",\"smartResult\":"@;
    let ic = int_chars(m.error_code);
    let icl: int = ic.len() as int;
    let trc = trc_of(m);
    let trl: int = trc.len() as int;
    let smc = smc_of(m);
    let sml: int = smc.len() as int;
    let tr2 = tr_state(m);
    assert(l1.len() == 13 && l2.len() == 19 && l3.len() == 15);
    assert(r == l1 + ic + l2 + trc + l3 + smc + "}"@);
    assert(r.len() == 48 + icl + trl + sml);
    let c = i + 32 + icl + trl;
    // third member: smartResult
    assert(s[i + (33 + icl + trl)] == r[33 + icl + trl] && r[33 + icl + trl] == l3[1] && l3[1]
        == '"');
    assert(s[c + 1] == '"');
    assert(quoted("smartResult"@) =~= seq!['"'] + "smartResult"@ + seq!['"']);
    assert(qlen("smartResult"@) == 13);
    assert forall|k: int| 0 <= k < 13 implies s[c + 1 + k] == quoted("smartResult"@)[k] by {
        assert(s[i + (33 + icl + trl + k)] == r[33 + icl + trl + k]);
        assert(r[33 + icl + trl + k] == l3[1 + k]);
    }
    lemma_quoted_at(s, c + 1, "smartResult"@);
    assert(spec_string(s, c + 1) == Some(("smartResult"@, c + 14)));
    assert("smartResult"@ != "errorCode"@);
    assert("smartResult"@ != "translateResult"@);
    assert(s[i + (46 + icl + trl)] == r[46 + icl + trl] && r[46 + icl + trl] == l3[14] && l3[14]
        == ':');
    assert(s[c + 14] == ':');
    assert(spec_ws(s, c + 14) == c + 14);
    let v2 = c + 15;
    assert forall|k: int| 0 <= k < sml implies #[trigger] s[v2 + k] == smc[k] by {
        assert(s[i + (47 + icl + trl + k)] == r[47 + icl + trl + k]);
        assert(r[47 + icl + trl + k] == smc[k]);
    }
    let e = v2 + sml;
    let sr2: Option<Option<SmartModel>> = match m.smart {
        Some(x) => {
            assert(smc[0] == '{');
            assert(s[v2 + 0] == '{');
            assert(spec_ws(s, v2) == v2);
            assert(!is_null_at(s, v2));
            if x.entries.len() >= 1 {
                lemma_inner_strs_shape(x.entries);
            }
            assert(smc.len() >= x.entries.len());
            lemma_smart_at(s, v2, x, (d - 1) as nat);
            Some(Some(x))
        },
        None => {
            assert(smc =~= "null"@);
            assert(s[v2 + 0] == 'n' && s[v2 + 1] == 'u' && s[v2 + 2] == 'l' && s[v2 + 3] == 'l');
            assert(spec_ws(s, v2) == v2);
            assert(is_null_at(s, v2));
            Some(None)
        },
    };
    // the closing brace
    assert(s[i + (47 + icl + trl + sml)] == r[47 + icl + trl + sml]);
    assert(r[47 + icl + trl + sml] == '}');
    assert(s[e] == '}');
    assert(spec_ws(s, e) == e);
    assert(finish_top(Some(m.error_code), tr2, sr2, e + 1) == Some(
        (ResponseModel { error_code: m.error_code, translate: flat(tr2), smart: flat(sr2) }, e + 1),
    ));
    assert(ResponseModel { error_code: m.error_code, translate: flat(tr2), smart: flat(sr2) }
        == m);
}

#[verifier::rlimit(80)]
proof fn lemma_tr_value_at(s: Seq<char>, i: int, m: ResponseModel, d: nat)
    requires
        encodable(m),
        0 <= i,
        i + encode_spec(m).len() <= s.len(),
        forall|k: int| 0 <= k < encode_spec(m).len() ==> #[trigger] s[i + k] == encode_spec(m)[k],
        d >= encode_spec(m).len() + 8,
    ensures
        spec_ws(s, i + 32 + int_chars(m.error_code).len()) == i + 32 + int_chars(
            m.error_code,
        ).len(),
        match m.translate {
            Some(ps) => !is_null_at(s, i + 32 + int_chars(m.error_code).len())
                && parse_paragraphs(s, i + 32 + int_chars(m.error_code).len(), d) == Some(
                (ps, i + 32 + int_chars(m.error_code).len() + trc_of(m).len()),
            ),
            None => is_null_at(s, i + 32 + int_chars(m.error_code).len()),
        },
        s[i + 32 + int_chars(m.error_code).len() + trc_of(m).len()] == ',',
        s[i + 33 + int_chars(m.error_code).len() + trc_of(m).len()] == '"',
{
    reveal_strlit("{\"errorCode\":");
    reveal_strlit(",\"translateResult\":");
    reveal_strlit(",\"smartResult\":");
    reveal_strlit("}");
    reveal_strlit("null");
    reveal_strlit("[");
    reveal_strlit("]");
    let r = encode_spec(m);
    let l1 = "{\"errorCode\":"@;
    let l2 = ",\"translateResult\":"@;
    let l3 = ",\"smartResult\":"@;
    let ic = int_chars(m.error_code);
    let icl: int = ic.len() as int;
    let trc = trc_of(m);
    let trl: int = trc.len() as int;
    let smc = smc_of(m);
    let sml: int = smc.len() as int;
    assert(l1.len() == 13 && l2.len() == 19 && l3.len() == 15);
    assert(r == l1 + ic + l2 + trc + l3 + smc + "}"@);
    assert(r.len() == 48 + icl + trl + sml);
    let v1 = i + 32 + icl;
    assert forall|k: int| 0 <= k < trl implies #[trigger] s[v1 + k] == trc[k] by {
        assert(s[i + (32 + icl + k)] == r[32 + icl + k]);
        assert(r[32 + icl + k] == trc[k]);
    }
    match m.translate {
        Some(ps) => {
            assert(trc[0] == '[');
            assert(s[v1 + 0] == '[');
            assert(spec_ws(s, v1) == v1);
            assert(!is_null_at(s, v1));
            lemma_paras_at(s, v1, ps, d);
        },
        None => {
            assert(trc =~= "null"@);
            assert(s[v1 + 0] == 'n' && s[v1 + 1] == 'u' && s[v1 + 2] == 'l' && s[v1 + 3] == 'l');
            assert(spec_ws(s, v1) == v1);
            assert(is_null_at(s, v1));
        },
    }
    assert(s[i + (32 + icl + trl)] == r[32 + icl + trl] && r[32 + icl + trl] == l3[0] && l3[0]
        == ',');
    assert(s[i + (33 + icl + trl)] == r[33 + icl + trl] && r[33 + icl + trl] == l3[1] && l3[1]
        == '"');
}

#[verifier::rlimit(80)]
proof fn lemma_l2_at(s: Seq<char>, i: int, m: ResponseModel)
    requires
        encodable(m),
        0 <= i,
        i + encode_spec(m).len() <= s.len(),
        forall|k: int| 0 <= k < encode_spec(m).len() ==> #[trigger] s[i + k] == encode_spec(m)[k],
    ensures
        s[i + 13 + int_chars(m.error_code).len()] == ',',
        s[i + 14 + int_chars(m.error_code).len()] == '"',
        spec_string(s, i + 14 + int_chars(m.error_code).len()) == Some(
            ("translateResult"@, i + 31 + int_chars(m.error_code).len()),
        ),
        s[i + 31 + int_chars(m.error_code).len()] == ':',
        "translateResult"@ != "errorCode"@,
{
    reveal_strlit("{\"errorCode\":");
    reveal_strlit(",\"translateResult\":");
    reveal_strlit(",\"smartResult\":");
    reveal_strlit("}");
    reveal_strlit("null");
    reveal_strlit("translateResult");
    reveal_strlit("errorCode");
    lemma_escape_plain("translateResult"@);
    let r = encode_spec(m);
    let l1 = "{\"errorCode\":"@;
    let l2 = ",\"translateResult\":"@;
    let l3 = ",\"smartResult\":"@;
    let ic = int_chars(m.error_code);
    let icl: int = ic.len() as int;
    let trc = trc_of(m);
    let trl: int = trc.len() as int;
    let smc = smc_of(m);
    let sml: int = smc.len() as int;
    assert(l1.len() == 13 && l2.len() == 19 && l3.len() == 15);
    assert(r == l1 + ic + l2 + trc + l3 + smc + "}"@);
    assert(r.len() == 48 + icl + trl + sml);
    let b = i + 13 + icl;
    assert(s[i + (13 + icl)] == r[13 + icl] && r[13 + icl] == l2[0] && l2[0] == ',');
    assert(s[i + (14 + icl)] == r[14 + icl] && r[14 + icl] == l2[1] && l2[1] == '"');
    assert(quoted("translateResult"@) =~= seq!['"'] + "translateResult"@ + seq!['"']);
    assert(qlen("translateResult"@) == 17);
    assert forall|k: int| 0 <= k < 17 implies s[b + 1 + k] == quoted("translateResult"@)[k] by {
        assert(s[i + (14 + icl + k)] == r[14 + icl + k]);
        assert(r[14 + icl + k] == l2[1 + k]);
    }
    lemma_quoted_at(s, b + 1, "translateResult"@);
    assert(s[i + (31 + icl)] == r[31 + icl] && r[31 + icl] == l2[18] && l2[18] == ':');
    assert(("translateResult"@).len() != ("errorCode"@).len());
}

#[verifier::rlimit(100)]
proof fn lemma_top_tail(s: Seq<char>, i: int, m: ResponseModel, d: nat)
    requires
        encodable(m),
        0 <= i,
        i + encode_spec(m).len() <= s.len(),
        forall|k: int| 0 <= k < encode_spec(m).len() ==> #[trigger] s[i + k] == encode_spec(m)[k],
        d >= encode_spec(m).len() + 10,
    ensures
        parse_top_members(
            s,
            i + 14 + int_chars(m.error_code).len(),
            d,
            Some(m.error_code),
            None,
            None,
            false,
        ) == Some((m, i + encode_spec(m).len())),
{
    reveal_strlit("{\"errorCode\":");
    reveal_strlit(",\"translateResult\":");
    reveal_strlit(",\"smartResult\":");
    reveal_strlit("}");
    reveal_strlit("null");
    reveal_strlit("translateResult");
    reveal_strlit("errorCode");
    lemma_escape_plain("errorCode"@);
    lemma_escape_plain("translateResult"@);
    let r = encode_spec(m);
    let l1 = "{\"errorCode\":"@;
    let l2 = ",\"translateResult\":"@;
    let l3 = ",\"smartResult\":"@;
    let ic = int_chars(m.error_code);
    let icl: int = ic.len() as int;
    let trc: Seq<char> = match m.translate {
        Some(ps) => paras_chars(ps),
        None => "null"@,
    };
    let trl: int = trc.len() as int;
    let smc: Seq<char> = match m.smart {
        Some(x) => smart_chars(x),
        None => "null"@,
    };
    let sml: int = smc.len() as int;
    assert(l1.len() == 13 && l2.len() == 19 && l3.len() == 15);
    assert(r == l1 + ic + l2 + trc + l3 + smc + "}"@);
    assert(r.len() == 48 + icl + trl + sml);
    let b = i + 13 + icl;
    // second member: translateResult
    lemma_l2_at(s, i, m);
    assert(s[b + 1] == '"');
    assert(spec_ws(s, b + 1) == b + 1);
    assert(spec_string(s, b + 1) == Some(("translateResult"@, b + 18)));
    assert(s[b + 18] == ':');
    assert(spec_ws(s, b + 18) == b + 18);
    let v1 = b + 19;
    assert(v1 == i + 32 + icl);
    lemma_tr_value_at(s, i, m, (d - 1) as nat);
    let c = v1 + trl;
    let tr2 = tr_state(m);
    // third member: smartResult
    assert(s[c] == ',');
    assert(spec_ws(s, c) == c);
    assert(s[c + 1] == '"');
    assert(spec_ws(s, c + 1) == c + 1);
    assert(tr2 == tr_state(m));
    lemma_top_member3(s, i, m, (d - 1) as nat);
    assert(c + 1 == i + 33 + icl + trl);
    assert(parse_top_members(
        s,
        c + 1,
        (d - 1) as nat,
        Some(m.error_code),
        tr2,
        None,
        false,
    ) == Some((m, i + r.len())));
    assert(parse_top_members(s, b + 1, d, Some(m.error_code), None, None, false) == Some(
        (m, i + r.len()),
    ));
}

#[verifier::rlimit(80)]
proof fn lemma_top_at(s: Seq<char>, i: int, m: ResponseModel, d: nat)
    requires
        encodable(m),
        0 <= i,
        i + encode_spec(m).len() <= s.len(),
        forall|k: int| 0 <= k < encode_spec(m).len() ==> #[trigger] s[i + k] == encode_spec(m)[k],
        d >= encode_spec(m).len() + 12,
    ensures
        parse_top(s, i, d) == Some((m, i + encode_spec(m).len())),
{
    reveal_strlit("{\"errorCode\":");
    reveal_strlit(",\"translateResult\":");
    reveal_strlit("errorCode");
    lemma_escape_plain("errorCode"@);
    let r = encode_spec(m);
    let l1 = "{\"errorCode\":"@;
    let l2 = ",\"translateResult\":"@;
    let ic = int_chars(m.error_code);
    let icl: int = ic.len() as int;
    assert(l1.len() == 13 && l2.len() == 19);
    assert(r.len() == 48 + icl + trc_of(m).len() + smc_of(m).len()) by {
        reveal_strlit(",\"smartResult\":");
        reveal_strlit("}");
        reveal_strlit("null");
        assert(r == l1 + ic + l2 + trc_of(m) + ",\"smartResult\":"@ + smc_of(m) + "}"@);
    }
    assert(r.len() >= 48 + icl);
    // first member: errorCode
    assert(s[i + 0] == r[0] && r[0] == '{');
    assert(s[i + 1] == r[1] && r[1] == '"');
    assert(spec_ws(s, i + 1) == i + 1);
    assert(quoted("errorCode"@) =~= seq!['"'] + "errorCode"@ + seq!['"']);
    assert(qlen("errorCode"@) == 11);
    assert forall|k: int| 0 <= k < 11 implies s[i + 1 + k] == quoted("errorCode"@)[k] by {
        assert(s[i + (1 + k)] == r[1 + k]);
    }
    lemma_quoted_at(s, i + 1, "errorCode"@);
    assert(spec_string(s, i + 1) == Some(("errorCode"@, i + 12)));
    assert(s[i + 12] == r[12] && r[12] == ':');
    assert(spec_ws(s, i + 12) == i + 12);
    lemma_int_chars_shape(m.error_code);
    assert(s[i + 13] == r[13] && r[13] == ic[0]);
    assert(spec_ws(s, i + 13) == i + 13);
    assert forall|k: int| 0 <= k < icl implies #[trigger] s[(i + 13) + k] == ic[k] by {
        assert(s[i + (13 + k)] == r[13 + k]);
        assert(r[13 + k] == ic[k]);
    }
    let b = i + 13 + icl;
    assert(s[i + (13 + icl)] == r[13 + icl] && r[13 + icl] == l2[0] && l2[0] == ',');
    assert(s[(i + 13) + icl] == ',');
    assert(!is_digit(',') && ',' != '.' && ',' != 'e' && ',' != 'E') by {
        assert(',' as u32 == 44);
    }
    lemma_i32_at(s, i + 13, m.error_code);
    assert(spec_i32(s, i + 13) == Some((m.error_code, b)));
    assert(s[b] == ',');
    assert(spec_ws(s, b) == b);
    assert(s[i + (14 + icl)] == r[14 + icl] && r[14 + icl] == l2[1] && l2[1] == '"');
    assert(s[b + 1] == '"');
    assert(spec_ws(s, b + 1) == b + 1);
    lemma_top_tail(s, i, m, (d - 2) as nat);
    assert(parse_top_members(s, i + 1, (d - 1) as nat, None, None, None, true) == Some(
        (m, i + r.len()),
    ));
}

/// Law: round trip. Decoding the canonical JSON encoding of a response model
/// reproduces exactly that model — same error code, same paragraph and
/// sentence texts in the same order, same smart-result entries.
pub proof fn lemma_round_trip(m: ResponseModel)
    requires
        encodable(m),
    ensures
        decode_spec(encode_spec(m)) == Some(m),
{
    reveal_strlit("{\"errorCode\":");
    let s = encode_spec(m);
    assert forall|k: int| 0 <= k < s.len() implies #[trigger] s[0 + k] == s[k] by {}
    assert(s[0] == ("{\"errorCode\":"@)[0]);
    assert(s[0] == '{');
    assert(spec_ws(s, 0) == 0);
    lemma_top_at(s, 0, m, crate::json::fuel_for(s));
    assert(parse_top(s, 0, crate::json::fuel_for(s)) == Some((m, s.len() as int)));
    assert(spec_ws(s, s.len() as int) == s.len());
}

/// The round trip holds of every response value: its integer fields are
/// 32-bit by construction.
pub proof fn lemma_round_trip_response(r: crate::ydresponse::YdResponse)
    ensures
        decode_spec(encode_spec(r@)) == Some(r@),
{
    lemma_round_trip(r@);
}

} // verus!
