//! The XML document of a clickable toast notification.
use vstd::prelude::*;
use crate::text::{concat, occurs_at, push_str, replace_all, replace_text};

verus! {

/// What one character of text becomes inside XML character data or an
/// attribute value.
pub open spec fn escape_char(c: char) -> Seq<char> {
    if c == '&' {
        "&amp;"@
    } else if c == '<' {
        "&lt;"@
    } else if c == '>' {
        "&gt;"@
    } else if c == '"' {
        "&quot;"@
    } else {
        seq![c]
    }
}

/// `s` with each character escaped.
pub open spec fn escaped(s: Seq<char>) -> Seq<char>
    decreases s.len(),
{
    if s.len() == 0 {
        Seq::<char>::empty()
    } else {
        escape_char(s[0]) + escaped(s.drop_first())
    }
}

/// `s` with each `c` replaced by `r`.
pub open spec fn map_char(s: Seq<char>, c: char, r: Seq<char>) -> Seq<char>
    decreases s.len(),
{
    if s.len() == 0 {
        Seq::<char>::empty()
    } else {
        (if s[0] == c {
            r
        } else {
            seq![s[0]]
        }) + map_char(s.drop_first(), c, r)
    }
}

/// Replacing a one-character pattern replaces each of its occurrences.
proof fn lemma_replace_single_char(s: Seq<char>, c: char, r: Seq<char>)
    ensures
        replace_all(s, seq![c], r) == map_char(s, c, r),
    decreases s.len(),
{
    if s.len() > 0 {
        lemma_replace_single_char(s.drop_first(), c, r);
        assert(s.subrange(1, s.len() as int) =~= s.drop_first());
        if s[0] == c {
            assert(s.subrange(0, 1) =~= seq![c]);
        } else {
            assert(s.subrange(0, 1)[0] != seq![c][0]);
        }
    }
}

/// Replacing characters works piece by piece.
proof fn lemma_map_char_concat(a: Seq<char>, b: Seq<char>, c: char, r: Seq<char>)
    ensures
        map_char(a + b, c, r) == map_char(a, c, r) + map_char(b, c, r),
    decreases a.len(),
{
    if a.len() == 0 {
        assert(a + b =~= b);
    } else {
        lemma_map_char_concat(a.drop_first(), b, c, r);
        assert((a + b).drop_first() =~= a.drop_first() + b);
        assert((a + b)[0] == a[0]);
    }
}

/// Replacing a character that does not occur changes nothing.
proof fn lemma_map_char_absent(s: Seq<char>, c: char, r: Seq<char>)
    requires
        !s.contains(c),
    ensures
        map_char(s, c, r) == s,
    decreases s.len(),
{
    if s.len() > 0 {
        assert(!s.drop_first().contains(c)) by {
            if s.drop_first().contains(c) {
                let k = choose|k: int| 0 <= k < s.drop_first().len() && s.drop_first()[k] == c;
                assert(s[k + 1] == c);
            }
        }
        lemma_map_char_absent(s.drop_first(), c, r);
        assert(s[0] != c) by {
            if s[0] == c {
                assert(s.contains(c));
            }
        }
        assert(seq![s[0]] + s.drop_first() =~= s);
    }
}

/// The four replacements that `escape_xml` makes, one after the other.
pub open spec fn escape_steps(s: Seq<char>) -> Seq<char> {
    map_char(
        map_char(map_char(map_char(s, '&', "&amp;"@), '<', "&lt;"@), '>', "&gt;"@),
        '"',
        "&quot;"@,
    )
}

proof fn lemma_escape_steps_concat(a: Seq<char>, b: Seq<char>)
    ensures
        escape_steps(a + b) == escape_steps(a) + escape_steps(b),
{
    lemma_map_char_concat(a, b, '&', "&amp;"@);
    let a1 = map_char(a, '&', "&amp;"@);
    let b1 = map_char(b, '&', "&amp;"@);
    lemma_map_char_concat(a1, b1, '<', "&lt;"@);
    let a2 = map_char(a1, '<', "&lt;"@);
    let b2 = map_char(b1, '<', "&lt;"@);
    lemma_map_char_concat(a2, b2, '>', "&gt;"@);
    let a3 = map_char(a2, '>', "&gt;"@);
    let b3 = map_char(b2, '>', "&gt;"@);
    lemma_map_char_concat(a3, b3, '"', "&quot;"@);
}

proof fn lemma_map_char_one(x: char, c: char, r: Seq<char>)
    ensures
        map_char(seq![x], c, r) == if x == c {
            r
        } else {
            seq![x]
        },
{
    assert(seq![x].drop_first() =~= Seq::<char>::empty());
    assert(map_char(Seq::<char>::empty(), c, r) == Seq::<char>::empty());
    assert(map_char(seq![x], c, r) =~= (if x == c {
        r
    } else {
        seq![x]
    }) + Seq::<char>::empty());
}

proof fn lemma_escape_steps_one(x: char)
    ensures
        escape_steps(seq![x]) == escape_char(x),
{
    reveal_strlit("&amp;");
    reveal_strlit("&lt;");
    reveal_strlit("&gt;");
    reveal_strlit("&quot;");
    lemma_map_char_one(x, '&', "&amp;"@);
    let s1 = map_char(seq![x], '&', "&amp;"@);
    if x == '&' {
        lemma_map_char_absent(s1, '<', "&lt;"@);
        lemma_map_char_absent(s1, '>', "&gt;"@);
        lemma_map_char_absent(s1, '"', "&quot;"@);
    } else {
        lemma_map_char_one(x, '<', "&lt;"@);
        let s2 = map_char(s1, '<', "&lt;"@);
        if x == '<' {
            assert(!s2.contains('>')) by {
                assert(s2 =~= seq!['&', 'l', 't', ';']);
            }
            assert(!s2.contains('"')) by {
                assert(s2 =~= seq!['&', 'l', 't', ';']);
            }
            lemma_map_char_absent(s2, '>', "&gt;"@);
            lemma_map_char_absent(s2, '"', "&quot;"@);
        } else {
            lemma_map_char_one(x, '>', "&gt;"@);
            let s3 = map_char(s2, '>', "&gt;"@);
            if x == '>' {
                assert(!s3.contains('"')) by {
                    assert(s3 =~= seq!['&', 'g', 't', ';']);
                }
                lemma_map_char_absent(s3, '"', "&quot;"@);
            } else {
                lemma_map_char_one(x, '"', "&quot;"@);
            }
        }
    }
}

/// The four replacements, one after the other, escape each character.
pub proof fn lemma_escape_steps_escape(s: Seq<char>)
    ensures
        escape_steps(s) == escaped(s),
    decreases s.len(),
{
    if s.len() > 0 {
        lemma_escape_steps_escape(s.drop_first());
        assert(s =~= seq![s[0]] + s.drop_first());
        lemma_escape_steps_concat(seq![s[0]], s.drop_first());
        lemma_escape_steps_one(s[0]);
    } else {
        assert(escape_steps(s) =~= Seq::<char>::empty());
    }
}

/// Escapes `s` for XML: `&` first, then `<`, `>` and `"`, each replaced by
/// its entity; this is the same as escaping each character on its own.
pub fn escape_xml(s: &str) -> (r: String)
    ensures
        r@ == escaped(s@),
{
    proof {
        reveal_strlit("&");
        reveal_strlit("<");
        reveal_strlit(">");
        reveal_strlit("\"");
        assert("&"@ =~= seq!['&']);
        assert("<"@ =~= seq!['<']);
        assert(">"@ =~= seq!['>']);
        assert("\""@ =~= seq!['"']);
    }
    let a = replace_text(s, "&", "&amp;");
    let b = replace_text(&a, "<", "&lt;");
    let c = replace_text(&b, ">", "&gt;");
    let d = replace_text(&c, "\"", "&quot;");
    proof {
        lemma_replace_single_char(s@, '&', "&amp;"@);
        lemma_replace_single_char(a@, '<', "&lt;"@);
        lemma_replace_single_char(b@, '>', "&gt;"@);
        lemma_replace_single_char(c@, '"', "&quot;"@);
        lemma_escape_steps_escape(s@);
    }
    d
}

/// Escaped text holds no `<`, `>` or `"`: it cannot open or close a tag or
/// end an attribute value.
pub proof fn lemma_escaped_has_no_markup(s: Seq<char>)
    ensures
        !escaped(s).contains('<'),
        !escaped(s).contains('>'),
        !escaped(s).contains('"'),
    decreases s.len(),
{
    reveal_strlit("&amp;");
    reveal_strlit("&lt;");
    reveal_strlit("&gt;");
    reveal_strlit("&quot;");
    if s.len() > 0 {
        lemma_escaped_has_no_markup(s.drop_first());
        let e = escape_char(s[0]);
        let rest = escaped(s.drop_first());
        assert(!e.contains('<') && !e.contains('>') && !e.contains('"')) by {
            if s[0] == '&' {
                assert(e =~= seq!['&', 'a', 'm', 'p', ';']);
            } else if s[0] == '<' {
                assert(e =~= seq!['&', 'l', 't', ';']);
            } else if s[0] == '>' {
                assert(e =~= seq!['&', 'g', 't', ';']);
            } else if s[0] == '"' {
                assert(e =~= seq!['&', 'q', 'u', 'o', 't', ';']);
            }
        }
        assert forall|c: char| (e + rest).contains(c) implies e.contains(c) || rest.contains(c) by {
            let k = choose|k: int| 0 <= k < (e + rest).len() && (e + rest)[k] == c;
            if k < e.len() {
                assert(e[k] == c);
            } else {
                assert(rest[k - e.len()] == c);
            }
        }
    }
}

/// The entity that escaping writes for `&`.
pub open spec fn amp_entity() -> Seq<char> {
    seq!['&', 'a', 'm', 'p', ';']
}

/// The entity that escaping writes for `<`.
pub open spec fn lt_entity() -> Seq<char> {
    seq!['&', 'l', 't', ';']
}

/// The entity that escaping writes for `>`.
pub open spec fn gt_entity() -> Seq<char> {
    seq!['&', 'g', 't', ';']
}

/// The entity that escaping writes for `"`.
pub open spec fn quot_entity() -> Seq<char> {
    seq!['&', 'q', 'u', 'o', 't', ';']
}

/// One of the four entities that escaping writes begins at position `i`
/// of `t`.
pub open spec fn entity_at(t: Seq<char>, i: int) -> bool {
    ||| occurs_at(t, amp_entity(), i)
    ||| occurs_at(t, lt_entity(), i)
    ||| occurs_at(t, gt_entity(), i)
    ||| occurs_at(t, quot_entity(), i)
}

/// `t` with the four entities decoded, read from the left; any other
/// character stands for itself.
pub open spec fn unescaped(t: Seq<char>) -> Seq<char>
    decreases t.len(),
{
    if t.len() == 0 {
        Seq::<char>::empty()
    } else if occurs_at(t, amp_entity(), 0) {
        seq!['&'] + unescaped(t.skip(5))
    } else if occurs_at(t, lt_entity(), 0) {
        seq!['<'] + unescaped(t.skip(4))
    } else if occurs_at(t, gt_entity(), 0) {
        seq!['>'] + unescaped(t.skip(4))
    } else if occurs_at(t, quot_entity(), 0) {
        seq!['"'] + unescaped(t.skip(6))
    } else {
        seq![t[0]] + unescaped(t.drop_first())
    }
}

/// Each character's escape is its entity, or the character itself.
proof fn lemma_escape_char_entities(c: char)
    ensures
        c == '&' ==> escape_char(c) == amp_entity(),
        c == '<' ==> escape_char(c) == lt_entity(),
        c == '>' ==> escape_char(c) == gt_entity(),
        c == '"' ==> escape_char(c) == quot_entity(),
{
    reveal_strlit("&amp;");
    reveal_strlit("&lt;");
    reveal_strlit("&gt;");
    reveal_strlit("&quot;");
    assert("&amp;"@ =~= amp_entity());
    assert("&lt;"@ =~= lt_entity());
    assert("&gt;"@ =~= gt_entity());
    assert("&quot;"@ =~= quot_entity());
}

proof fn lemma_unescaped_step(c: char, t: Seq<char>)
    ensures
        unescaped(escape_char(c) + t) == seq![c] + unescaped(t),
{
    lemma_escape_char_entities(c);
    let e = escape_char(c);
    let u = e + t;
    if c == '&' {
        assert(u.subrange(0, 5) =~= amp_entity());
        assert(u.skip(5) =~= t);
    } else if c == '<' {
        if u.len() >= 5 {
            assert(u.subrange(0, 5)[1] != amp_entity()[1]);
        }
        assert(u.subrange(0, 4) =~= lt_entity());
        assert(u.skip(4) =~= t);
    } else if c == '>' {
        if u.len() >= 5 {
            assert(u.subrange(0, 5)[1] != amp_entity()[1]);
        }
        assert(u.subrange(0, 4)[1] != lt_entity()[1]);
        assert(u.subrange(0, 4) =~= gt_entity());
        assert(u.skip(4) =~= t);
    } else if c == '"' {
        if u.len() >= 5 {
            assert(u.subrange(0, 5)[1] != amp_entity()[1]);
        }
        assert(u.subrange(0, 4)[1] != lt_entity()[1]);
        assert(u.subrange(0, 4)[1] != gt_entity()[1]);
        assert(u.subrange(0, 6) =~= quot_entity());
        assert(u.skip(6) =~= t);
    } else {
        assert(e == seq![c]);
        assert(u[0] == c);
        if u.len() >= 5 {
            assert(u.subrange(0, 5)[0] != amp_entity()[0]);
        }
        if u.len() >= 4 {
            assert(u.subrange(0, 4)[0] != lt_entity()[0]);
            assert(u.subrange(0, 4)[0] != gt_entity()[0]);
        }
        if u.len() >= 6 {
            assert(u.subrange(0, 6)[0] != quot_entity()[0]);
        }
        assert(u.drop_first() =~= t);
    }
}

/// Decoding the entities of escaped text gives the text back: nothing is
/// escaped twice and nothing is lost.
pub proof fn lemma_unescaped_escaped(s: Seq<char>)
    ensures
        unescaped(escaped(s)) == s,
    decreases s.len(),
{
    if s.len() > 0 {
        lemma_unescaped_escaped(s.drop_first());
        lemma_unescaped_step(s[0], escaped(s.drop_first()));
        assert(seq![s[0]] + s.drop_first() =~= s);
    } else {
        assert(escaped(s) =~= Seq::<char>::empty());
    }
}

proof fn lemma_occurs_at_shift(e: Seq<char>, t: Seq<char>, pat: Seq<char>, i: int)
    requires
        occurs_at(t, pat, i),
    ensures
        occurs_at(e + t, pat, i + e.len()),
{
    let k = i + e.len();
    assert((e + t).subrange(k, k + pat.len()) =~= t.subrange(i, i + pat.len()));
}

/// Every `&` in escaped text begins one of the four entities.
pub proof fn lemma_escaped_ampersands_start_entities(s: Seq<char>)
    ensures
        forall|i: int|
            0 <= i < escaped(s).len() && escaped(s)[i] == '&' ==> entity_at(escaped(s), i),
    decreases s.len(),
{
    if s.len() > 0 {
        lemma_escaped_ampersands_start_entities(s.drop_first());
        lemma_escape_char_entities(s[0]);
        let e = escape_char(s[0]);
        let rest = escaped(s.drop_first());
        let u = e + rest;
        assert(escaped(s) == u);
        assert forall|i: int| 0 <= i < u.len() && u[i] == '&' implies entity_at(u, i) by {
            if i < e.len() {
                if s[0] == '&' {
                    assert(i == 0);
                    assert(u.subrange(0, 5) =~= amp_entity());
                } else if s[0] == '<' {
                    assert(i == 0);
                    assert(u.subrange(0, 4) =~= lt_entity());
                } else if s[0] == '>' {
                    assert(i == 0);
                    assert(u.subrange(0, 4) =~= gt_entity());
                } else if s[0] == '"' {
                    assert(i == 0);
                    assert(u.subrange(0, 6) =~= quot_entity());
                } else {
                    assert(u[0] == s[0]);
                }
            } else {
                let j = i - e.len();
                assert(rest[j] == '&');
                assert(entity_at(rest, j));
                if occurs_at(rest, amp_entity(), j) {
                    lemma_occurs_at_shift(e, rest, amp_entity(), j);
                } else if occurs_at(rest, lt_entity(), j) {
                    lemma_occurs_at_shift(e, rest, lt_entity(), j);
                } else if occurs_at(rest, gt_entity(), j) {
                    lemma_occurs_at_shift(e, rest, gt_entity(), j);
                } else {
                    lemma_occurs_at_shift(e, rest, quot_entity(), j);
                }
            }
        }
    }
}

/// `s` with each character `c` written as `f(c)`.
pub open spec fn flat(f: spec_fn(char) -> Seq<char>, s: Seq<char>) -> Seq<char>
    decreases s.len(),
{
    if s.len() == 0 {
        Seq::<char>::empty()
    } else {
        f(s[0]) + flat(f, s.drop_first())
    }
}

/// Each piece `f(c)` is non-empty and holds `&` only at its start, and one
/// that starts with `&` but is not `pat` differs from `pat` at its second
/// character.
pub open spec fn pieces_fit(f: spec_fn(char) -> Seq<char>, pat: Seq<char>) -> bool {
    forall|c: char|
        #![trigger f(c)]
        f(c).len() > 0 && (forall|j: int| 0 < j < f(c).len() ==> #[trigger] f(c)[j] != '&') && (f(c)[0]
            == '&' && f(c) != pat ==> f(c).len() >= 2 && f(c)[1] != pat[1])
}

/// Replacing in text that holds no first character of the pattern at its
/// start leaves that start as it is.
proof fn lemma_replace_plain_prefix(u: Seq<char>, w: Seq<char>, pat: Seq<char>, rep: Seq<char>)
    requires
        pat.len() > 0,
        forall|i: int| 0 <= i < u.len() ==> u[i] != pat[0],
    ensures
        replace_all(u + w, pat, rep) == u + replace_all(w, pat, rep),
    decreases u.len(),
{
    if u.len() == 0 {
        assert(u + w =~= w);
    } else {
        let t = u + w;
        assert(t[0] == u[0]);
        if t.len() >= pat.len() {
            assert(t.subrange(0, pat.len() as int)[0] != pat[0]);
        }
        assert(!occurs_at(t, pat, 0));
        assert(t.drop_first() =~= u.drop_first() + w);
        lemma_replace_plain_prefix(u.drop_first(), w, pat, rep);
        assert(seq![u[0]] + (u.drop_first() + replace_all(w, pat, rep)) =~= u + replace_all(
            w,
            pat,
            rep,
        ));
    }
}

/// Replacing `pat` in text written piece by piece replaces exactly the
/// pieces that are `pat`, where the pieces fit.
proof fn lemma_replace_flat(f: spec_fn(char) -> Seq<char>, s: Seq<char>, pat: Seq<char>, rep: Seq<char>)
    requires
        pat.len() >= 2,
        pat[0] == '&',
        pieces_fit(f, pat),
    ensures
        replace_all(flat(f, s), pat, rep) == flat(
            |c: char|
                if f(c) == pat {
                    rep
                } else {
                    f(c)
                },
            s,
        ),
    decreases s.len(),
{
    let g = |c: char|
        if f(c) == pat {
            rep
        } else {
            f(c)
        };
    if s.len() == 0 {
        assert(flat(f, s) =~= Seq::<char>::empty());
    } else {
        let p = f(s[0]);
        let rest = flat(f, s.drop_first());
        let t = p + rest;
        assert(flat(f, s) == t);
        lemma_replace_flat(f, s.drop_first(), pat, rep);
        if p == pat {
            assert(t.subrange(0, pat.len() as int) =~= pat);
            assert(t.subrange(pat.len() as int, t.len() as int) =~= rest);
            assert(g(s[0]) == rep);
        } else if p[0] != '&' {
            lemma_replace_plain_prefix(p, rest, pat, rep);
            assert(g(s[0]) == p);
        } else {
            assert(t[0] == '&' && t[1] == p[1]);
            if t.len() >= pat.len() {
                assert(t.subrange(0, pat.len() as int)[1] != pat[1]);
            }
            assert(!occurs_at(t, pat, 0));
            assert(t.drop_first() =~= p.drop_first() + rest);
            lemma_replace_plain_prefix(p.drop_first(), rest, pat, rep);
            assert(seq![t[0]] + (p.drop_first() + replace_all(rest, pat, rep)) =~= p
                + replace_all(rest, pat, rep));
            assert(g(s[0]) == p);
        }
    }
}

/// Writing each character as itself gives the text back.
proof fn lemma_flat_identity(s: Seq<char>)
    ensures
        flat(|c: char| seq![c], s) == s,
    decreases s.len(),
{
    if s.len() > 0 {
        lemma_flat_identity(s.drop_first());
        assert(seq![s[0]] + s.drop_first() =~= s);
    } else {
        assert(flat(|c: char| seq![c], s) =~= s);
    }
}

/// Pieces written with the same function give the same text.
proof fn lemma_flat_same(f: spec_fn(char) -> Seq<char>, g: spec_fn(char) -> Seq<char>, s: Seq<char>)
    requires
        forall|c: char| #[trigger] f(c) == g(c),
    ensures
        flat(f, s) == flat(g, s),
    decreases s.len(),
{
    if s.len() > 0 {
        lemma_flat_same(f, g, s.drop_first());
    }
}

/// Escaping writes each character as its escape.
proof fn lemma_escaped_flat(s: Seq<char>)
    ensures
        escaped(s) == flat(|c: char| escape_char(c), s),
    decreases s.len(),
{
    if s.len() > 0 {
        lemma_escaped_flat(s.drop_first());
    }
}

/// The entity that the `k`-th replacement of the decoding chain looks for.
pub open spec fn stage_pattern(k: int) -> Seq<char> {
    if k == 0 {
        lt_entity()
    } else if k == 1 {
        gt_entity()
    } else if k == 2 {
        quot_entity()
    } else {
        amp_entity()
    }
}

/// The character that the `k`-th replacement of the decoding chain writes.
pub open spec fn stage_char(k: int) -> char {
    if k == 0 {
        '<'
    } else if k == 1 {
        '>'
    } else if k == 2 {
        '"'
    } else {
        '&'
    }
}

/// What escaped `c` has become after the first `k` replacements.
pub open spec fn stage_piece(k: int, c: char) -> Seq<char> {
    if (k >= 1 && c == '<') || (k >= 2 && c == '>') || (k >= 3 && c == '"') || (k >= 4 && c
        == '&') {
        seq![c]
    } else {
        escape_char(c)
    }
}

proof fn lemma_stage_step(k: int, s: Seq<char>)
    requires
        0 <= k < 4,
    ensures
        replace_all(
            flat(|c: char| stage_piece(k, c), s),
            stage_pattern(k),
            seq![stage_char(k)],
        ) == flat(|c: char| stage_piece(k + 1, c), s),
{
    let f = |c: char| stage_piece(k, c);
    let pat = stage_pattern(k);
    let rep = seq![stage_char(k)];
    assert(pat.len() >= 2 && pat[0] == '&');
    assert forall|c: char| #[trigger]
        f(c).len() > 0 && (forall|j: int| 0 < j < f(c).len() ==> #[trigger] f(c)[j] != '&') && (f(c)[0]
            == '&' && f(c) != pat ==> f(c).len() >= 2 && f(c)[1] != pat[1]) by {
        lemma_escape_char_entities(c);
        if c != '&' && c != '<' && c != '>' && c != '"' {
            reveal_strlit("&amp;");
        }
    }
    lemma_replace_flat(f, s, pat, rep);
    let g = |c: char|
        if f(c) == pat {
            rep
        } else {
            f(c)
        };
    assert forall|c: char| #[trigger] g(c) == stage_piece(k + 1, c) by {
        lemma_escape_char_entities(c);
        if c == stage_char(k) {
            assert(f(c) == pat);
        } else {
            if f(c).len() == pat.len() {
                assert(f(c)[1] != pat[1]);
            }
            assert(f(c) != pat);
        }
    }
    lemma_flat_same(g, |c: char| stage_piece(k + 1, c), s);
}

/// What `str::replace` does to escaped text in the order
/// `&lt;`, `&gt;`, `&quot;`, `&amp;`.
pub open spec fn replace_entities(t: Seq<char>) -> Seq<char> {
    replace_all(
        replace_all(
            replace_all(replace_all(t, lt_entity(), seq!['<']), gt_entity(), seq!['>']),
            quot_entity(),
            seq!['"'],
        ),
        amp_entity(),
        seq!['&'],
    )
}

/// Replacing the entities `&lt;`, `&gt;`, `&quot;` and then `&amp;` by
/// their characters, one after the other, gives escaped text back as it
/// was: nothing is escaped twice and nothing is lost.
pub proof fn lemma_replace_entities_undoes_escaping(s: Seq<char>)
    ensures
        replace_entities(escaped(s)) == s,
{
    lemma_escaped_flat(s);
    assert forall|c: char| #[trigger] escape_char(c) == stage_piece(0, c) by {}
    lemma_flat_same(|c: char| escape_char(c), |c: char| stage_piece(0, c), s);
    lemma_stage_step(0, s);
    lemma_stage_step(1, s);
    lemma_stage_step(2, s);
    lemma_stage_step(3, s);
    assert forall|c: char| #[trigger] stage_piece(4, c) == seq![c] by {
        lemma_escape_char_entities(c);
    }
    lemma_flat_same(|c: char| stage_piece(4, c), |c: char| seq![c], s);
    lemma_flat_identity(s);
}

/// The toast document up to the title.
pub open spec fn toast_head() -> Seq<char> {
    "<toast activationType=\"foreground\">\n                <visual>\n                    <binding template=\"ToastGeneric\">\n                        <text>"@
}

/// The toast document between the title and the body.
pub open spec fn toast_middle() -> Seq<char> {
    "</text>\n                        <text>"@
}

/// The toast document after the body.
pub open spec fn toast_tail() -> Seq<char> {
    "</text>\n                    </binding>\n                </visual>\n            </toast>"@
}

/// The XML of a toast notification that shows `title` and `body`, each
/// escaped, and that brings the application to the front when clicked.
pub fn toast_xml(title: &str, body: &str) -> (r: String)
    ensures
        r@ == toast_head() + escaped(title@) + toast_middle() + escaped(body@) + toast_tail(),
{
    let t = escape_xml(title);
    let b = escape_xml(body);
    let mut r = concat(
        "<toast activationType=\"foreground\">\n                <visual>\n                    <binding template=\"ToastGeneric\">\n                        <text>",
        &t,
    );
    push_str(&mut r, "</text>\n                        <text>");
    push_str(&mut r, &b);
    push_str(
        &mut r,
        "</text>\n                    </binding>\n                </visual>\n            </toast>",
    );
    r
}

} // verus!
