//! Text helpers shared by the environment and the test runner: decimal
//! numerals, substring replacement, joining and concatenation, each stated
//! over sequences of characters.
use vstd::prelude::*;
use vstd::string::*;
use itertools::Itertools;

verus! {

/// The characters of the decimal digit `d`.
pub open spec fn digit_char(d: nat) -> char {
    if d == 0 {
        '0'
    } else if d == 1 {
        '1'
    } else if d == 2 {
        '2'
    } else if d == 3 {
        '3'
    } else if d == 4 {
        '4'
    } else if d == 5 {
        '5'
    } else if d == 6 {
        '6'
    } else if d == 7 {
        '7'
    } else if d == 8 {
        '8'
    } else {
        '9'
    }
}

/// The decimal numeral of `n`, without sign or leading zeros.
pub open spec fn decimal(n: nat) -> Seq<char>
    decreases n,
{
    if n < 10 {
        seq![digit_char(n)]
    } else {
        decimal(n / 10).push(digit_char(n % 10))
    }
}

/// Every piece of `parts` in order, with nothing between them.
pub open spec fn concat(parts: Seq<Seq<char>>) -> Seq<char>
    decreases parts.len(),
{
    if parts.len() == 0 {
        Seq::empty()
    } else {
        concat(parts.drop_last()) + parts.last()
    }
}

/// The pieces of `parts` in order, with `sep` between each two of them.
pub open spec fn join(parts: Seq<Seq<char>>, sep: Seq<char>) -> Seq<char>
    decreases parts.len(),
{
    if parts.len() == 0 {
        Seq::empty()
    } else if parts.len() == 1 {
        parts[0]
    } else {
        join(parts.drop_last(), sep) + sep + parts.last()
    }
}

/// `s` with every occurrence of `pat` replaced by `rep`, scanning from the
/// left and never letting two replaced occurrences overlap.
pub open spec fn replace_all(s: Seq<char>, pat: Seq<char>, rep: Seq<char>) -> Seq<char>
    decreases s.len(),
{
    if s.len() == 0 || pat.len() == 0 {
        s
    } else if pat.is_prefix_of(s) {
        rep + replace_all(s.skip(pat.len() as int), pat, rep)
    } else {
        seq![s[0]] + replace_all(s.skip(1), pat, rep)
    }
}

/// Replacing every `c` by a text without `c` leaves no `c`.
pub proof fn lemma_replace_removes(s: Seq<char>, c: char, rep: Seq<char>)
    requires
        forall|k: int| 0 <= k < rep.len() ==> rep[k] != c,
    ensures
        forall|k: int| 0 <= k < replace_all(s, seq![c], rep).len() ==> replace_all(s, seq![c], rep)[k] != c,
    decreases s.len(),
{
    let pat = seq![c];
    if s.len() > 0 {
        let rest = replace_all(s.skip(1), pat, rep);
        lemma_replace_removes(s.skip(1), c, rep);
        let r = replace_all(s, pat, rep);
        if pat.is_prefix_of(s) {
            assert(r == rep + rest);
            assert forall|k: int| 0 <= k < r.len() implies r[k] != c by {
                if k >= rep.len() {
                    assert(r[k] == rest[k - rep.len()]);
                }
            }
        } else {
            assert(s[0] != c) by {
                if s[0] == c {
                    assert(pat =~= s.subrange(0, 1));
                }
            }
            assert(r == seq![s[0]] + rest);
            assert forall|k: int| 0 <= k < r.len() implies r[k] != c by {
                if k >= 1 {
                    assert(r[k] == rest[k - 1]);
                }
            }
        }
    }
}

/// Replacing in a text without `c` by a text without `c` gives a text
/// without `c`.
pub proof fn lemma_replace_keeps_absent(s: Seq<char>, pat: Seq<char>, rep: Seq<char>, c: char)
    requires
        forall|k: int| 0 <= k < s.len() ==> s[k] != c,
        forall|k: int| 0 <= k < rep.len() ==> rep[k] != c,
    ensures
        forall|k: int| 0 <= k < replace_all(s, pat, rep).len() ==> replace_all(s, pat, rep)[k] != c,
    decreases s.len(),
{
    if s.len() > 0 && pat.len() > 0 {
        let r = replace_all(s, pat, rep);
        if pat.is_prefix_of(s) {
            let tail = s.skip(pat.len() as int);
            assert forall|k: int| 0 <= k < tail.len() implies tail[k] != c by {
                assert(tail[k] == s[k + pat.len()]);
            }
            lemma_replace_keeps_absent(tail, pat, rep, c);
            let rest = replace_all(tail, pat, rep);
            assert(r == rep + rest);
            assert forall|k: int| 0 <= k < r.len() implies r[k] != c by {
                if k >= rep.len() {
                    assert(r[k] == rest[k - rep.len()]);
                }
            }
        } else {
            let tail = s.skip(1);
            assert forall|k: int| 0 <= k < tail.len() implies tail[k] != c by {
                assert(tail[k] == s[k + 1]);
            }
            lemma_replace_keeps_absent(tail, pat, rep, c);
            let rest = replace_all(tail, pat, rep);
            assert(r == seq![s[0]] + rest);
            assert forall|k: int| 0 <= k < r.len() implies r[k] != c by {
                if k >= 1 {
                    assert(r[k] == rest[k - 1]);
                }
            }
        }
    }
}

/// A text in which the first character of `pat` never occurs has nothing
/// to replace.
pub proof fn lemma_replace_nothing(s: Seq<char>, pat: Seq<char>, rep: Seq<char>)
    requires
        pat.len() > 0,
        forall|k: int| 0 <= k < s.len() ==> s[k] != pat[0],
    ensures
        replace_all(s, pat, rep) == s,
    decreases s.len(),
{
    if s.len() > 0 {
        assert(!pat.is_prefix_of(s)) by {
            if pat.is_prefix_of(s) {
                assert(s.subrange(0, pat.len() as int)[0] == s[0]);
            }
        }
        let tail = s.skip(1);
        assert forall|k: int| 0 <= k < tail.len() implies tail[k] != pat[0] by {
            assert(tail[k] == s[k + 1]);
        }
        lemma_replace_nothing(tail, pat, rep);
        assert(seq![s[0]] + s.skip(1) =~= s);
    }
}

/// A text made of `p`, then `m`, then `q` starts with `p` and ends with `q`.
pub proof fn lemma_affixes(s: Seq<char>, p: Seq<char>, m: Seq<char>, q: Seq<char>)
    requires
        s =~= p + m + q,
    ensures
        p.is_prefix_of(s),
        q.is_suffix_of(s),
{
    assert(s.subrange(0, p.len() as int) =~= p);
    assert(s.subrange((s.len() - q.len()) as int, s.len() as int) =~= q);
}

/// The views of a sequence of strings.
pub open spec fn views(strings: Seq<String>) -> Seq<Seq<char>> {
    strings.map_values(|s: String| s@)
}

/// `itertools::Itertools::join` on the strings of `parts`: the first, then
/// `sep` and the next, and so on; the empty string for no parts.
#[verifier::external_body]
pub(crate) fn join_strings(parts: &Vec<String>, sep: &str) -> (r: String)
    ensures
        r@ == join(views(parts@), sep@),
{
    parts.iter().join(sep)
}

/// `String::push` of std: appends one character.
#[verifier::external_body]
pub(crate) fn push_char(s: &mut String, c: char)
    ensures
        final(s)@ == old(s)@.push(c),
{
    s.push(c);
}

fn digit(d: u64) -> (c: char)
    requires
        d < 10,
    ensures
        c == digit_char(d as nat),
{
    if d == 0 {
        '0'
    } else if d == 1 {
        '1'
    } else if d == 2 {
        '2'
    } else if d == 3 {
        '3'
    } else if d == 4 {
        '4'
    } else if d == 5 {
        '5'
    } else if d == 6 {
        '6'
    } else if d == 7 {
        '7'
    } else if d == 8 {
        '8'
    } else {
        '9'
    }
}

/// The decimal numeral of `n`.
pub fn decimal_string(n: u64) -> (s: String)
    ensures
        s@ == decimal(n as nat),
    decreases n,
{
    if n < 10 {
        let mut s = String::new();
        push_char(&mut s, digit(n));
        s
    } else {
        let mut s = decimal_string(n / 10);
        push_char(&mut s, digit(n % 10));
        s
    }
}

/// The characters of `s`, in order.
pub fn chars_of(s: &str) -> (v: Vec<char>)
    ensures
        v@ == s@,
{
    let mut v: Vec<char> = Vec::new();
    for c in it: s.chars()
        invariant
            v@ == it.seq().take(it.index() as int),
    {
        v.push(c);
    }
    v
}

/// Whether `pat` occurs in `cs` at position `at`.
fn occurs_at(cs: &Vec<char>, pat: &Vec<char>, at: usize) -> (r: bool)
    requires
        at <= cs@.len(),
    ensures
        r == pat@.is_prefix_of(cs@.skip(at as int)),
{
    if pat.len() > cs.len() - at {
        return false;
    }
    let mut j: usize = 0;
    while j < pat.len()
        invariant
            at + pat@.len() <= cs@.len(),
            cs@.len() == cs.len(),
            pat@.len() == pat.len(),
            j <= pat@.len(),
            forall|k: int| 0 <= k < j ==> pat@[k] == cs@[at + k],
        decreases pat@.len() - j,
    {
        if pat[j] != cs[at + j] {
            assert(cs@.skip(at as int)[j as int] == cs@[at + j]);
            return false;
        }
        j = j + 1;
    }
    assert(pat@ =~= cs@.skip(at as int).subrange(0, pat@.len() as int));
    true
}

/// `s` with every occurrence of `pat` replaced by `rep` (as `str::replace`
/// of std does for a pattern that is not empty).
pub fn replace_str(s: &str, pat: &str, rep: &str) -> (r: String)
    requires
        pat@.len() > 0,
    ensures
        r@ == replace_all(s@, pat@, rep@),
{
    let cs = chars_of(s);
    let ps = chars_of(pat);
    let mut out = String::new();
    let mut i: usize = 0;
    assert(s@.skip(0) =~= s@);
    while i < cs.len()
        invariant
            cs@ == s@,
            ps@ == pat@,
            pat@.len() > 0,
            i <= cs@.len(),
            out@ + replace_all(s@.skip(i as int), pat@, rep@) == replace_all(s@, pat@, rep@),
        decreases cs@.len() - i,
    {
        let ghost rest = s@.skip(i as int);
        let ghost before = out@;
        if occurs_at(&cs, &ps, i) {
            out.append(rep);
            assert(rest.skip(pat@.len() as int) =~= s@.skip(i + pat@.len()));
            assert(before + (rep@ + replace_all(rest.skip(pat@.len() as int), pat@, rep@))
                =~= out@ + replace_all(s@.skip(i + pat@.len()), pat@, rep@));
            i = i + ps.len();
        } else {
            push_char(&mut out, cs[i]);
            assert(rest.skip(1) =~= s@.skip(i + 1));
            assert(rest[0] == s@[i as int]);
            assert(before + (seq![rest[0]] + replace_all(rest.skip(1), pat@, rep@))
                =~= out@ + replace_all(s@.skip(i + 1), pat@, rep@));
            i = i + 1;
        }
    }
    assert(s@.skip(i as int) =~= Seq::<char>::empty());
    assert(out@ + Seq::<char>::empty() =~= out@);
    out
}

} // verus!
