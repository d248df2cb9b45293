//! The value grammar: rendering a value to text and re-deriving a value by
//! parsing text.  A variable reference renders as `$name`, or as `${name}`
//! when the following literal starts with an identifier character; parsing
//! accepts both forms.  Rewrite rules use the parser to re-validate the
//! syntactic shape of a field after textual substitution.
use vstd::prelude::*;

use crate::model::{wf_value, SegView, Segment, Value, ValueView};
use crate::text::{from_chars, ident_char, is_ident_char, is_plain_char, plain_char, to_chars};

verus! {

// ------------------------------------------------------------------ rendering

/// Whether the segment is a literal whose first character is an identifier
/// character (which forces the `${name}` form on a preceding variable).
pub open spec fn seg_starts_ident(s: SegView) -> bool {
    match s {
        SegView::Lit(t) => t.len() > 0 && ident_char(t[0]),
        SegView::Var(_) => false,
    }
}

/// The text of the segment at `i`, given its successor (for the brace rule).
pub open spec fn render_at(v: ValueView, i: int) -> Seq<char> {
    match v[i] {
        SegView::Lit(t) => t,
        SegView::Var(n) => if i + 1 < v.len() && seg_starts_ident(v[i + 1]) {
            seq!['$', '{'] + n + seq!['}']
        } else {
            seq!['$'] + n
        },
    }
}

/// The rendered text of the segments from `i` on.
pub open spec fn render_from(v: ValueView, i: int) -> Seq<char>
    decreases v.len() - i,
{
    if i < 0 || i >= v.len() {
        Seq::empty()
    } else {
        render_at(v, i) + render_from(v, i + 1)
    }
}

/// The rendered text of a whole value.
pub open spec fn spec_render_value(v: ValueView) -> Seq<char> {
    render_from(v, 0)
}

/// Appends the characters of `s` to `acc`.
pub fn push_str_chars(acc: &mut Vec<char>, s: &String)
    ensures
        final(acc)@ == old(acc)@ + s@,
{
    let cs = to_chars(s.as_str());
    let mut j: usize = 0;
    while j < cs.len()
        invariant
            0 <= j <= cs@.len(),
            cs@ == s@,
            acc@ == old(acc)@ + cs@.subrange(0, j as int),
        decreases cs@.len() - j,
    {
        acc.push(cs[j]);
        proof {
            assert(acc@ =~= old(acc)@ + cs@.subrange(0, j + 1 as int));
        }
        j = j + 1;
    }
    proof {
        assert(acc@ =~= old(acc)@ + s@);
    }
}

/// Whether the string starts with an identifier character.
fn starts_ident(s: &String) -> (r: bool)
    ensures
        r == (s@.len() > 0 && ident_char(s@[0])),
{
    let cs = to_chars(s.as_str());
    if cs.len() > 0 {
        is_ident_char(cs[0])
    } else {
        false
    }
}

/// Whether the segment is a literal starting with an identifier character.
fn exec_seg_starts_ident(s: &Segment) -> (r: bool)
    ensures
        r == seg_starts_ident(s@),
{
    match s {
        Segment::Lit(t) => starts_ident(t),
        Segment::Var(_) => false,
    }
}

/// Appends the rendered text of a value to `acc`.
pub fn render_value_onto(acc: &mut Vec<char>, v: &Value)
    ensures
        final(acc)@ == old(acc)@ + spec_render_value(v@),
{
    let n = v.segs.len();
    let mut i: usize = 0;
    while i < n
        invariant
            0 <= i <= n,
            n == v.segs@.len(),
            acc@ + render_from(v@, i as int) == old(acc)@ + render_from(v@, 0),
        decreases n - i,
    {
        let ghost acc_pre = acc@;
        match &v.segs[i] {
            Segment::Lit(t) => {
                push_str_chars(acc, t);
                proof {
                    assert(v@[i as int] == v.segs@[i as int]@);
                    assert(render_at(v@, i as int) == t@);
                }
            },
            Segment::Var(name) => {
                let braces = i + 1 < n && exec_seg_starts_ident(&v.segs[i + 1]);
                proof {
                    if i + 1 < n {
                        assert(v@[i + 1 as int] == v.segs@[i + 1 as int]@);
                    }
                }
                if braces {
                    acc.push('$');
                    acc.push('{');
                    push_str_chars(acc, name);
                    acc.push('}');
                    proof {
                        assert(render_at(v@, i as int) =~= seq!['$', '{'] + name@ + seq!['}']);
                        assert(acc@ =~= acc_pre + render_at(v@, i as int));
                    }
                } else {
                    acc.push('$');
                    push_str_chars(acc, name);
                    proof {
                        assert(render_at(v@, i as int) =~= seq!['$'] + name@);
                        assert(acc@ =~= acc_pre + render_at(v@, i as int));
                    }
                }
            },
        }
        proof {
            assert(acc@ =~= acc_pre + render_at(v@, i as int));
            assert(render_from(v@, i as int) == render_at(v@, i as int) + render_from(
                v@,
                i + 1 as int,
            ));
            assert(acc@ + render_from(v@, i + 1 as int) =~= acc_pre + render_from(v@, i as int));
        }
        i = i + 1;
    }
    proof {
        assert(acc@ =~= old(acc)@ + render_from(v@, 0));
    }
}

/// Renders a value to text.
pub fn render_value(v: &Value) -> (r: String)
    ensures
        r@ == spec_render_value(v@),
{
    let mut acc: Vec<char> = Vec::new();
    render_value_onto(&mut acc, v);
    proof {
        assert(acc@ =~= spec_render_value(v@));
    }
    from_chars(&acc)
}

// ------------------------------------------------------------------ parsing

/// The end of the run of identifier characters starting at `i`.
pub open spec fn ident_run_end(s: Seq<char>, i: int) -> int
    decreases s.len() - i,
{
    if i < 0 || i >= s.len() {
        i
    } else if ident_char(s[i]) {
        ident_run_end(s, i + 1)
    } else {
        i
    }
}

/// The end of the run of plain characters starting at `i`.
pub open spec fn lit_run_end(s: Seq<char>, i: int) -> int
    decreases s.len() - i,
{
    if i < 0 || i >= s.len() {
        i
    } else if plain_char(s[i]) {
        lit_run_end(s, i + 1)
    } else {
        i
    }
}

/// Run ends stay within `i ..= s.len()`.
pub proof fn lemma_run_end_bounds(s: Seq<char>, i: int)
    requires
        0 <= i <= s.len(),
    ensures
        i <= ident_run_end(s, i) <= s.len(),
        i <= lit_run_end(s, i) <= s.len(),
    decreases s.len() - i,
{
    if i < s.len() {
        lemma_run_end_bounds(s, i + 1);
    }
}

/// The segments parsed from position `i` on, or `None` when the text from
/// `i` on is not in the value grammar.
pub open spec fn spec_parse_from(s: Seq<char>, i: int) -> Option<ValueView>
    decreases s.len() - i,
        when 0 <= i <= s.len()
        via spec_parse_from_dec
{
    if i >= s.len() {
        Some(Seq::empty())
    } else if s[i] == '$' {
        if i + 1 < s.len() && s[i + 1] == '{' {
            let e = ident_run_end(s, i + 2);
            if e > i + 2 && e < s.len() && s[e] == '}' {
                match spec_parse_from(s, e + 1) {
                    Some(rest) => Some(seq![SegView::Var(s.subrange(i + 2, e))] + rest),
                    None => None,
                }
            } else {
                None
            }
        } else {
            let e = ident_run_end(s, i + 1);
            if e > i + 1 {
                match spec_parse_from(s, e) {
                    Some(rest) => Some(seq![SegView::Var(s.subrange(i + 1, e))] + rest),
                    None => None,
                }
            } else {
                None
            }
        }
    } else if plain_char(s[i]) {
        let e = lit_run_end(s, i);
        match spec_parse_from(s, e) {
            Some(rest) => Some(seq![SegView::Lit(s.subrange(i, e))] + rest),
            None => None,
        }
    } else {
        None
    }
}

#[via_fn]
proof fn spec_parse_from_dec(s: Seq<char>, i: int) {
    if i < s.len() {
        if i + 2 <= s.len() {
            lemma_run_end_bounds(s, i + 2);
        }
        if i + 1 <= s.len() {
            lemma_run_end_bounds(s, i + 1);
        }
        lemma_run_end_bounds(s, i);
    }
}

/// The value parsed from the whole text, or `None` when the text is not in
/// the value grammar.
pub open spec fn spec_parse_value(s: Seq<char>) -> Option<ValueView> {
    spec_parse_from(s, 0)
}

/// Finds the end of the identifier run starting at `start`.
fn scan_ident_run(chars: &Vec<char>, start: usize) -> (e: usize)
    requires
        start <= chars@.len(),
    ensures
        e == ident_run_end(chars@, start as int),
        start <= e <= chars@.len(),
{
    let mut j: usize = start;
    while j < chars.len() && is_ident_char(chars[j])
        invariant
            start <= j <= chars@.len(),
            ident_run_end(chars@, start as int) == ident_run_end(chars@, j as int),
        decreases chars@.len() - j,
    {
        j = j + 1;
    }
    j
}

/// Finds the end of the plain-character run starting at `start`.
fn scan_lit_run(chars: &Vec<char>, start: usize) -> (e: usize)
    requires
        start <= chars@.len(),
    ensures
        e == lit_run_end(chars@, start as int),
        start <= e <= chars@.len(),
{
    let mut j: usize = start;
    while j < chars.len() && is_plain_char(chars[j])
        invariant
            start <= j <= chars@.len(),
            lit_run_end(chars@, start as int) == lit_run_end(chars@, j as int),
        decreases chars@.len() - j,
    {
        j = j + 1;
    }
    j
}

/// The text of `chars[a..b]` as a string.
fn chars_sub(chars: &Vec<char>, a: usize, b: usize) -> (r: String)
    requires
        a <= b <= chars@.len(),
    ensures
        r@ == chars@.subrange(a as int, b as int),
{
    let mut out: Vec<char> = Vec::new();
    let mut j: usize = a;
    while j < b
        invariant
            a <= j <= b <= chars@.len(),
            out@ == chars@.subrange(a as int, j as int),
        decreases b - j,
    {
        out.push(chars[j]);
        proof {
            assert(out@ =~= chars@.subrange(a as int, j + 1 as int));
        }
        j = j + 1;
    }
    from_chars(&out)
}

/// Parses a character sequence as a value.
pub fn parse_value_chars(chars: &Vec<char>) -> (r: Option<Value>)
    ensures
        match r {
            Some(v) => spec_parse_value(chars@) == Some(v@),
            None => spec_parse_value(chars@) is None,
        },
{
    let ghost s = chars@;
    let mut out: Vec<Segment> = Vec::new();
    let mut i: usize = 0;
    while i < chars.len()
        invariant
            0 <= i <= s.len(),
            s == chars@,
            match spec_parse_from(s, i as int) {
                Some(rest) => spec_parse_from(s, 0) == Some(
                    out@.map_values(|sg: Segment| sg@) + rest,
                ),
                None => spec_parse_from(s, 0) is None,
            },
        decreases s.len() - i,
    {
        let c = chars[i];
        if c == '$' {
            if i + 1 < chars.len() && chars[i + 1] == '{' {
                let e = scan_ident_run(chars, i + 2);
                if e > i + 2 && e < chars.len() && chars[e] == '}' {
                    let name = chars_sub(chars, i + 2, e);
                    let ghost out_pre = out@;
                    out.push(Segment::Var(name));
                    proof {
                        lemma_map_push_seg(out_pre, Segment::Var(name));
                        let done = out@.map_values(|sg: Segment| sg@);
                        assert(done.last() == SegView::Var(s.subrange(i + 2, e as int)));
                        assert(done.drop_last() =~= out_pre.map_values(|sg: Segment| sg@));
                        assert(spec_parse_from(s, i as int) == match spec_parse_from(
                            s,
                            (e + 1) as int,
                        ) {
                            Some(rest) => Some(
                                seq![SegView::Var(s.subrange(i + 2, e as int))] + rest,
                            ),
                            None => None::<ValueView>,
                        });
                        lemma_parse_step(s, i as int, (e + 1) as int, done);
                    }
                    i = e + 1;
                } else {
                    return None;
                }
            } else {
                let e = scan_ident_run(chars, i + 1);
                if e > i + 1 {
                    let name = chars_sub(chars, i + 1, e);
                    let ghost out_pre = out@;
                    out.push(Segment::Var(name));
                    proof {
                        lemma_map_push_seg(out_pre, Segment::Var(name));
                        let done = out@.map_values(|sg: Segment| sg@);
                        assert(done.last() == SegView::Var(s.subrange(i + 1, e as int)));
                        assert(done.drop_last() =~= out_pre.map_values(|sg: Segment| sg@));
                        assert(spec_parse_from(s, i as int) == match spec_parse_from(s, e as int) {
                            Some(rest) => Some(
                                seq![SegView::Var(s.subrange(i + 1, e as int))] + rest,
                            ),
                            None => None::<ValueView>,
                        });
                        lemma_parse_step(s, i as int, e as int, done);
                    }
                    i = e;
                } else {
                    return None;
                }
            }
        } else if is_plain_char(c) {
            let e = scan_lit_run(chars, i);
            proof {
                lemma_run_end_bounds(s, i + 1 as int);
                assert(lit_run_end(s, i as int) == lit_run_end(s, i + 1 as int));
                assert(e > i);
            }
            let t = chars_sub(chars, i, e);
            let ghost out_pre = out@;
            out.push(Segment::Lit(t));
            proof {
                lemma_map_push_seg(out_pre, Segment::Lit(t));
                let done = out@.map_values(|sg: Segment| sg@);
                assert(done.last() == SegView::Lit(s.subrange(i as int, e as int)));
                assert(done.drop_last() =~= out_pre.map_values(|sg: Segment| sg@));
                assert(spec_parse_from(s, i as int) == match spec_parse_from(s, e as int) {
                    Some(rest) => Some(seq![SegView::Lit(s.subrange(i as int, e as int))] + rest),
                    None => None::<ValueView>,
                });
                lemma_parse_step(s, i as int, e as int, done);
            }
            i = e;
        } else {
            return None;
        }
    }
    proof {
        assert(spec_parse_from(s, i as int) == Some(Seq::<SegView>::empty()));
        assert(out@.map_values(|sg: Segment| sg@) + Seq::<SegView>::empty() =~= out@.map_values(
            |sg: Segment| sg@,
        ));
    }
    Some(Value { segs: out })
}

/// Mapping the views of a segment vector distributes over `push`.
proof fn lemma_map_push_seg(segs: Seq<Segment>, sg: Segment)
    ensures
        segs.push(sg).map_values(|x: Segment| x@) =~= segs.map_values(|x: Segment| x@).push(sg@),
{
}

/// Re-association used after consuming one token: if parsing from `i` yields
/// the token `done.last()` followed by whatever parsing from `j` yields, the
/// whole-text invariant carries from `i` to `j`.
proof fn lemma_parse_step(s: Seq<char>, i: int, j: int, done: Seq<SegView>)
    requires
        done.len() > 0,
        spec_parse_from(s, i) == match spec_parse_from(s, j) {
            Some(rest) => Some(seq![done.last()] + rest),
            None => None::<ValueView>,
        },
        match spec_parse_from(s, i) {
            Some(rest) => spec_parse_from(s, 0) == Some(done.drop_last() + rest),
            None => spec_parse_from(s, 0) is None,
        },
    ensures
        match spec_parse_from(s, j) {
            Some(rest) => spec_parse_from(s, 0) == Some(done + rest),
            None => spec_parse_from(s, 0) is None,
        },
{
    match spec_parse_from(s, j) {
        Some(rest_j) => {
            assert(done.drop_last() + (seq![done.last()] + rest_j) =~= done + rest_j);
        },
        None => {},
    }
}

// ---------------------------------------------------------- the round trip

/// A run of plain characters ends exactly where the plain characters do.
proof fn lemma_lit_run_concat(s: Seq<char>, i: int, e: int)
    requires
        0 <= i <= e <= s.len(),
        forall|j: int| i <= j < e ==> plain_char(s[j]),
        e == s.len() || !plain_char(s[e]),
    ensures
        lit_run_end(s, i) == e,
    decreases e - i,
{
    if i < e {
        lemma_lit_run_concat(s, i + 1, e);
    }
}

/// A run of identifier characters ends exactly where they do.
proof fn lemma_ident_run_concat(s: Seq<char>, i: int, e: int)
    requires
        0 <= i <= e <= s.len(),
        forall|j: int| i <= j < e ==> ident_char(s[j]),
        e == s.len() || !ident_char(s[e]),
    ensures
        ident_run_end(s, i) == e,
    decreases e - i,
{
    if i < e {
        lemma_ident_run_concat(s, i + 1, e);
    }
}

/// Character runs only look at the text from their start on.
proof fn lemma_run_shift(s: Seq<char>, i: int, j: int)
    requires
        0 <= i <= j <= s.len(),
    ensures
        ident_run_end(s, j) == i + ident_run_end(s.subrange(i, s.len() as int), j - i),
        lit_run_end(s, j) == i + lit_run_end(s.subrange(i, s.len() as int), j - i),
    decreases s.len() - j,
{
    let t = s.subrange(i, s.len() as int);
    if j < s.len() {
        assert(t[j - i] == s[j]);
        lemma_run_shift(s, i, j + 1);
    }
}

/// Parsing only looks at the text from its position on.
proof fn lemma_parse_shift(s: Seq<char>, i: int)
    requires
        0 <= i <= s.len(),
    ensures
        spec_parse_from(s, i) == spec_parse_value(s.subrange(i, s.len() as int)),
    decreases s.len() - i,
{
    let t = s.subrange(i, s.len() as int);
    if i == s.len() {
        assert(t.len() == 0);
    } else if s[i] == '$' {
        assert(t[0] == '$');
        if i + 1 < s.len() && s[i + 1] == '{' {
            assert(t[1] == '{');
            let e = ident_run_end(s, i + 2);
            lemma_run_shift(s, i, i + 2);
            lemma_run_end_bounds(s, i + 2);
            let e2 = ident_run_end(t, 2);
            assert(e == i + e2);
            if e > i + 2 && e < s.len() && s[e] == '}' {
                assert(t[e2] == s[e]);
                lemma_parse_shift(s, e + 1);
                assert(s.subrange(e + 1, s.len() as int) =~= t.subrange(e2 + 1, t.len() as int));
                lemma_parse_shift(t, e2 + 1);
                assert(s.subrange(i + 2, e) =~= t.subrange(2, e2));
                assert(spec_parse_from(s, i) == spec_parse_from(t, 0));
            } else {
                if e2 > 2 && e2 < t.len() {
                    assert(t[e2] == s[e]);
                }
                assert(spec_parse_from(s, i) is None);
                assert(spec_parse_from(t, 0) is None);
            }
        } else {
            if i + 1 < s.len() {
                assert(t[1] == s[i + 1]);
            }
            assert(!(1 < t.len() && t[1] == '{'));
            let e = ident_run_end(s, i + 1);
            lemma_run_shift(s, i, i + 1);
            lemma_run_end_bounds(s, i + 1);
            let e2 = ident_run_end(t, 1);
            assert(e == i + e2);
            if e > i + 1 {
                lemma_parse_shift(s, e);
                assert(s.subrange(e, s.len() as int) =~= t.subrange(e2, t.len() as int));
                lemma_parse_shift(t, e2);
                assert(s.subrange(i + 1, e) =~= t.subrange(1, e2));
                assert(spec_parse_from(s, i) == spec_parse_from(t, 0));
            } else {
                assert(spec_parse_from(s, i) is None);
                assert(spec_parse_from(t, 0) is None);
            }
        }
    } else if plain_char(s[i]) {
        assert(t[0] == s[i]);
        let e = lit_run_end(s, i);
        lemma_run_shift(s, i, i);
        lemma_run_end_bounds(s, i + 1);
        let e2 = lit_run_end(t, 0);
        assert(e == i + e2);
        assert(lit_run_end(s, i) == lit_run_end(s, i + 1));
        lemma_parse_shift(s, e);
        assert(s.subrange(e, s.len() as int) =~= t.subrange(e2, t.len() as int));
        lemma_parse_shift(t, e2);
        assert(s.subrange(i, e) =~= t.subrange(0, e2));
        assert(spec_parse_from(s, i) == spec_parse_from(t, 0));
    } else {
        assert(t[0] == s[i]);
    }
}

/// Rendering from a position ignores the dropped head.
proof fn lemma_render_drop(v: ValueView, j: int)
    requires
        0 <= j,
        v.len() > 0,
    ensures
        render_from(v.drop_first(), j) == render_from(v, j + 1),
    decreases v.len() - j,
{
    let w = v.drop_first();
    if j < w.len() {
        assert(w[j] == v[j + 1]);
        if j + 1 < w.len() {
            assert(w[j + 1] == v[j + 2]);
        }
        assert(render_at(w, j) == render_at(v, j + 1));
        lemma_render_drop(v, j + 1);
    }
}

/// The round trip of the value grammar: parsing the rendered text of a
/// well-formed value yields the value itself, segment for segment.
#[verifier::rlimit(100)]
#[verifier::spinoff_prover]
pub proof fn lemma_value_round_trip(v: ValueView)
    requires
        wf_value(v),
    ensures
        spec_parse_value(spec_render_value(v)) == Some(v),
    decreases v.len(),
{
    let s = spec_render_value(v);
    if v.len() == 0 {
        assert(s.len() == 0);
        assert(spec_parse_value(s) == Some(Seq::<SegView>::empty()));
        assert(Seq::<SegView>::empty() =~= v);
    } else {
        let w = v.drop_first();
        assert(wf_value(w)) by {
            assert(forall|k: int| 0 <= k < w.len() ==> w[k] == v[k + 1]);
        }
        lemma_value_round_trip(w);
        let rest = spec_render_value(w);
        lemma_render_drop(v, 0);
        assert(render_from(v, 1) == rest);
        assert(s == render_at(v, 0) + rest);
        // what the tail starts with, if anything
        if w.len() > 0 {
            assert(rest == render_at(w, 0) + render_from(w, 1));
        }
        match v[0] {
            SegView::Lit(t) => {
                assert(t.len() > 0 && forall|j: int| 0 <= j < t.len() ==> plain_char(t[j]));
                assert(forall|j: int| 0 <= j < t.len() ==> s[j] == t[j]);
                if w.len() > 0 {
                    // no two adjacent literals: the next segment is a variable
                    assert(!(v[1] is Lit));
                    match w[0] {
                        SegView::Var(n2) => {
                            assert(n2.len() > 0);
                            assert(render_at(w, 0)[0] == '$');
                            assert(s[t.len() as int] == '$');
                            assert(!plain_char('$'));
                        },
                        SegView::Lit(_) => {
                            assert(false);
                        },
                    }
                    lemma_lit_run_concat(s, 0, t.len() as int);
                } else {
                    assert(s =~= t);
                    lemma_lit_run_concat(s, 0, t.len() as int);
                }
                assert(plain_char(s[0]));
                assert(s[0] != '$');
                assert(lit_run_end(s, 0) == t.len());
                lemma_parse_shift(s, t.len() as int);
                assert(s.subrange(t.len() as int, s.len() as int) =~= rest);
                assert(s.subrange(0, t.len() as int) =~= t);
                assert(spec_parse_value(s) == Some(seq![SegView::Lit(t)] + w));
                assert(seq![SegView::Lit(t)] + w =~= v);
            },
            SegView::Var(n) => {
                assert(n.len() > 0 && forall|j: int| 0 <= j < n.len() ==> ident_char(n[j]));
                let braces = 1 < v.len() && seg_starts_ident(v[1]);
                if braces {
                    assert(render_at(v, 0) =~= seq!['$', '{'] + n + seq!['}']);
                    assert(s[0] == '$');
                    assert(s[1] == '{');
                    assert(forall|j: int| 0 <= j < n.len() ==> s[2 + j] == n[j]);
                    assert(s[2 + n.len() as int] == '}');
                    assert(!ident_char('}'));
                    lemma_ident_run_concat(s, 2, 2 + n.len() as int);
                    let e = ident_run_end(s, 2);
                    assert(e == 2 + n.len());
                    assert(e > 2 && e < s.len() && s[e] == '}');
                    lemma_parse_shift(s, e + 1);
                    assert(s.subrange(e + 1, s.len() as int) =~= rest);
                    assert(s.subrange(2, e) =~= n);
                    assert(spec_parse_value(s) == Some(seq![SegView::Var(n)] + w));
                    assert(seq![SegView::Var(n)] + w =~= v);
                } else {
                    assert(render_at(v, 0) =~= seq!['$'] + n);
                    assert(s[0] == '$');
                    assert(forall|j: int| 0 <= j < n.len() ==> s[1 + j] == n[j]);
                    // the variable name's run ends at the tail
                    if w.len() > 0 {
                        assert(s[1 + n.len() as int] == rest[0]);
                        match w[0] {
                            SegView::Var(_) => {
                                assert(rest[0] == '$');
                                assert(!ident_char('$'));
                            },
                            SegView::Lit(t2) => {
                                assert(!seg_starts_ident(w[0]));
                                assert(t2.len() > 0);
                                assert(render_at(w, 0) == t2);
                                assert(rest[0] == t2[0]);
                                assert(!ident_char(t2[0]));
                            },
                        }
                        lemma_ident_run_concat(s, 1, 1 + n.len() as int);
                    } else {
                        assert(s =~= seq!['$'] + n);
                        lemma_ident_run_concat(s, 1, 1 + n.len() as int);
                    }
                    let e = ident_run_end(s, 1);
                    assert(e == 1 + n.len());
                    // the name is non-empty, so this is not the `${` form
                    if 1 < s.len() {
                        assert(s[1] == n[0]);
                        assert(ident_char(n[0]));
                        assert(s[1] != '{');
                    }
                    assert(e > 1);
                    lemma_parse_shift(s, e);
                    assert(s.subrange(e, s.len() as int) =~= rest);
                    assert(s.subrange(1, e) =~= n);
                    assert(spec_parse_value(s) == Some(seq![SegView::Var(n)] + w));
                    assert(seq![SegView::Var(n)] + w =~= v);
                }
            },
        }
    }
}

/// Parses a string as a value.
pub fn parse_value(s: &String) -> (r: Option<Value>)
    ensures
        match r {
            Some(v) => spec_parse_value(s@) == Some(v@),
            None => spec_parse_value(s@) is None,
        },
{
    let chars = to_chars(s.as_str());
    parse_value_chars(&chars)
}

} // verus!
