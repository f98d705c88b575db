//! The textual model the whole crate is stated over: ASCII case folding,
//! splitting a sentence on single spaces, and joining token lists back into
//! one string.

use vstd::prelude::*;
use vstd::string::StrSliceExecFns;
use vstd::string::StringExecFns;

verus! {

/// The ASCII lowercase of one character: 'A' through 'Z' fold to 'a' through
/// 'z'; every other character is unchanged.
pub open spec fn lower_char(c: char) -> char {
    if 'A' <= c && c <= 'Z' {
        ((c as u8) + 32) as char
    } else {
        c
    }
}

/// The ASCII lowercase of a whole string, character by character.
pub open spec fn lower(s: Seq<char>) -> Seq<char> {
    s.map_values(|c| lower_char(c))
}

/// Appends one character to an owned string.
///
/// Relies on String::push: it appends the given character to the end of the
/// string and changes nothing else.
#[verifier::external_body]
fn push_char(s: &mut String, c: char)
    ensures
        final(s)@ == old(s)@.push(c),
{
    s.push(c)
}

/// Builds the ASCII-lowercased copy of a string.
pub fn lower_str(s: &str) -> (r: String)
    ensures
        r@ == lower(s@),
{
    let n = s.unicode_len();
    let mut out = String::new();
    let mut i: usize = 0;
    while i < n
        invariant
            n == s@.len(),
            i <= n,
            out@ == lower(s@.take(i as int)),
        decreases n - i,
    {
        let c = s.get_char(i);
        let cu = c as u32;
        let lc = if 65 <= cu && cu <= 90 {
            ((c as u8) + 32) as char
        } else {
            c
        };
        assert(lc == lower_char(s@[i as int]));
        push_char(&mut out, lc);
        proof {
            assert(out@ =~= lower(s@.take(i + 1)));
        }
        i = i + 1;
    }
    proof {
        assert(s@.take(n as int) =~= s@);
    }
    out
}

/// The tokens of a string split on single spaces, in order.  Splitting the
/// empty string gives one empty token; every space ends the token before it
/// and starts a new one, so consecutive spaces produce empty tokens.
pub open spec fn split_spaces_spec(s: Seq<char>) -> Seq<Seq<char>>
    decreases s.len(),
{
    if s.len() == 0 {
        seq![Seq::<char>::empty()]
    } else if s[0] == ' ' {
        seq![Seq::<char>::empty()] + split_spaces_spec(s.drop_first())
    } else {
        let rest = split_spaces_spec(s.drop_first());
        seq![seq![s[0]] + rest[0]] + rest.drop_first()
    }
}

/// Splitting always yields at least one token.
pub proof fn lemma_split_spaces_len(s: Seq<char>)
    ensures
        split_spaces_spec(s).len() >= 1,
    decreases s.len(),
{
    if s.len() != 0 {
        lemma_split_spaces_len(s.drop_first());
    }
}

/// How one more character extends the token list: a space opens a fresh empty
/// token; any other character grows the last token.
pub proof fn lemma_split_spaces_push(s: Seq<char>, c: char)
    ensures
        split_spaces_spec(s).len() >= 1,
        c == ' ' ==> split_spaces_spec(s.push(c)) == split_spaces_spec(s).push(
            Seq::<char>::empty(),
        ),
        c != ' ' ==> split_spaces_spec(s.push(c)) == split_spaces_spec(s).update(
            split_spaces_spec(s).len() - 1,
            split_spaces_spec(s).last().push(c),
        ),
    decreases s.len(),
{
    reveal_with_fuel(split_spaces_spec, 3);
    lemma_split_spaces_len(s);
    if s.len() == 0 {
        if c == ' ' {
            assert(s.push(c)[0] == ' ');
            assert(s.push(c).drop_first() =~~= Seq::<char>::empty());
            assert(split_spaces_spec(s.push(c)) =~~= split_spaces_spec(s).push(
                Seq::<char>::empty(),
            ));
        } else {
            assert(s.push(c)[0] == c);
            assert(s.push(c).drop_first() =~~= Seq::<char>::empty());
            assert(split_spaces_spec(s.push(c)) =~~= split_spaces_spec(s).update(
                split_spaces_spec(s).len() - 1,
                split_spaces_spec(s).last().push(c),
            ));
        }
    } else {
        lemma_split_spaces_push(s.drop_first(), c);
        lemma_split_spaces_len(s.drop_first());
        assert(s.push(c)[0] == s[0]);
        assert(s.push(c).drop_first() =~~= s.drop_first().push(c));
        if c == ' ' {
            assert(split_spaces_spec(s.push(c)) =~~= split_spaces_spec(s).push(
                Seq::<char>::empty(),
            ));
        } else {
            assert(split_spaces_spec(s.push(c)) =~~= split_spaces_spec(s).update(
                split_spaces_spec(s).len() - 1,
                split_spaces_spec(s).last().push(c),
            ));
        }
    }
}

/// The views of a vector of owned strings, as a token list.
pub open spec fn views_of(toks: Seq<String>) -> Seq<Seq<char>> {
    toks.map_values(|t: String| t@)
}

/// Splits a string on single spaces into owned tokens.
pub fn split_spaces(s: &str) -> (toks: Vec<String>)
    ensures
        views_of(toks@) == split_spaces_spec(s@),
{
    let n = s.unicode_len();
    let mut toks: Vec<String> = Vec::new();
    let mut cur = String::new();
    let mut i: usize = 0;
    while i < n
        invariant
            n == s@.len(),
            i <= n,
            views_of(toks@).push(cur@) == split_spaces_spec(s@.take(i as int)),
        decreases n - i,
    {
        let c = s.get_char(i);
        proof {
            assert(s@.take(i + 1) =~= s@.take(i as int).push(s@[i as int]));
            lemma_split_spaces_push(s@.take(i as int), s@[i as int]);
        }
        if c == ' ' {
            toks.push(cur);
            cur = String::new();
            proof {
                assert(views_of(toks@).push(cur@) =~= split_spaces_spec(s@.take(i + 1)));
            }
        } else {
            push_char(&mut cur, c);
            proof {
                assert(views_of(toks@).push(cur@) =~= split_spaces_spec(s@.take(i + 1)));
            }
        }
        i = i + 1;
    }
    proof {
        assert(s@.take(n as int) =~= s@);
    }
    toks.push(cur);
    proof {
        assert(views_of(toks@) =~= split_spaces_spec(s@));
    }
    toks
}

/// The tokens joined into one string, with the separator between each
/// neighbouring pair.
pub open spec fn join_with(toks: Seq<Seq<char>>, sep: Seq<char>) -> Seq<char>
    decreases toks.len(),
{
    if toks.len() == 0 {
        Seq::<char>::empty()
    } else if toks.len() == 1 {
        toks[0]
    } else {
        join_with(toks.drop_last(), sep) + sep + toks.last()
    }
}

/// Joins a vector of tokens into one string with the given separator.
pub fn join_strings(toks: &Vec<String>, sep: &str) -> (r: String)
    ensures
        r@ == join_with(views_of(toks@), sep@),
{
    let mut out = String::new();
    let mut i: usize = 0;
    while i < toks.len()
        invariant
            i <= toks@.len(),
            out@ == join_with(views_of(toks@).take(i as int), sep@),
        decreases toks@.len() - i,
    {
        if i > 0 {
            out.append(sep);
        }
        out.append(toks[i].as_str());
        proof {
            assert(views_of(toks@).take(i + 1).drop_last() =~= views_of(toks@).take(i as int));
            assert(views_of(toks@).take(i + 1).last() == toks@[i as int]@);
        }
        i = i + 1;
    }
    proof {
        assert(views_of(toks@).take(toks@.len() as int) =~= views_of(toks@));
    }
    out
}

/// Compares two string slices character by character.
pub fn str_eq(a: &str, b: &str) -> (r: bool)
    ensures
        r == (a@ == b@),
{
    let na = a.unicode_len();
    let nb = b.unicode_len();
    if na != nb {
        return false;
    }
    let mut i: usize = 0;
    while i < na
        invariant
            na == a@.len(),
            na == b@.len(),
            i <= na,
            forall|j: int| 0 <= j < i ==> a@[j] == b@[j],
        decreases na - i,
    {
        if a.get_char(i) != b.get_char(i) {
            return false;
        }
        i = i + 1;
    }
    proof {
        assert(a@ =~= b@);
    }
    true
}

/// Tests whether any string of the vector equals the given word.
pub fn contains_str(v: &Vec<String>, w: &str) -> (r: bool)
    ensures
        r == views_of(v@).contains(w@),
{
    let mut i: usize = 0;
    while i < v.len()
        invariant
            i <= v@.len(),
            forall|j: int| 0 <= j < i ==> views_of(v@)[j] != w@,
        decreases v@.len() - i,
    {
        if str_eq(v[i].as_str(), w) {
            proof {
                assert(views_of(v@)[i as int] == w@);
            }
            return true;
        }
        i = i + 1;
    }
    false
}

} // verus!
