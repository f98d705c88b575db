//! A word-to-replacement table.  A registration call hands over a
//! space-separated list of words and one replacement; each listed word is
//! mapped to that replacement, overwriting whatever it was mapped to before.

use vstd::prelude::*;
use vstd::string::StringExecFns;

use crate::text::join_strings;
use crate::text::join_with;
use crate::text::split_spaces;
use crate::text::split_spaces_spec;
use crate::text::str_eq;
use crate::text::views_of;

verus! {

/// Manages groups of words that each map to a designated replacement word.
/// Entries are kept in registration order; the newest entry for a word is
/// the one that counts, so re-registering a word overwrites its mapping.
pub struct WordMap {
    entries: Vec<(String, String)>,
}

/// The replacement that an entry list assigns to a word: that of the newest
/// entry whose key is the word, if there is one.
spec fn assoc(entries: Seq<(String, String)>, w: Seq<char>) -> Option<Seq<char>>
    decreases entries.len(),
{
    if entries.len() == 0 {
        None
    } else if entries.last().0@ == w {
        Some(entries.last().1@)
    } else {
        assoc(entries.drop_last(), w)
    }
}

/// A table extended by one registration: every word of the list is mapped to
/// the given replacement, and every other word keeps its old mapping.
pub open spec fn register(
    m: Map<Seq<char>, Seq<char>>,
    words: Seq<Seq<char>>,
    val: Seq<char>,
) -> Map<Seq<char>, Seq<char>> {
    Map::new(
        |w: Seq<char>| m.contains_key(w) || words.contains(w),
        |w: Seq<char>| if words.contains(w) {
            val
        } else {
            m[w]
        },
    )
}

/// A token as a table maps it: the replacement where the token is a mapped
/// word, the token itself where it is not.
pub open spec fn replace_tok(m: Map<Seq<char>, Seq<char>>, t: Seq<char>) -> Seq<char> {
    if m.contains_key(t) {
        m[t]
    } else {
        t
    }
}

/// Every token of a list as a table maps it, in order.
pub open spec fn replace_all(m: Map<Seq<char>, Seq<char>>, toks: Seq<Seq<char>>) -> Seq<
    Seq<char>,
> {
    toks.map_values(|t: Seq<char>| replace_tok(m, t))
}

impl View for WordMap {
    type V = Map<Seq<char>, Seq<char>>;

    /// The table viewed as a mathematical map from word to replacement.
    closed spec fn view(&self) -> Map<Seq<char>, Seq<char>> {
        Map::new(
            |w: Seq<char>| assoc(self.entries@, w) is Some,
            |w: Seq<char>| assoc(self.entries@, w)->Some_0,
        )
    }
}

impl WordMap {
    /// Creates an empty table: no word is mapped yet.
    pub fn new() -> (r: WordMap)
        ensures
            r@ == Map::<Seq<char>, Seq<char>>::empty(),
    {
        let r = WordMap { entries: Vec::new() };
        proof {
            assert(r@ =~= Map::<Seq<char>, Seq<char>>::empty());
        }
        r
    }

    /// Registers one word under the given replacement.
    fn insert_word(&mut self, word: String, val: &str)
        ensures
            final(self)@ == old(self)@.insert(word@, val@),
    {
        let ghost w: Seq<char> = word@;
        self.entries.push((word, String::from_str(val)));
        proof {
            assert(self.entries@.drop_last() =~= old(self).entries@);
            assert forall|u: Seq<char>| true implies assoc(self.entries@, u) == (if u == w {
                Some(val@)
            } else {
                assoc(old(self).entries@, u)
            }) by {
                assert(self.entries@.last().0@ == w);
            }
            assert(self@ =~= old(self)@.insert(w, val@));
        }
    }

    /// Adds a new mapping group: splits `new_keys` on single spaces and maps
    /// every resulting word (empty words included) to `new_val`, overwriting
    /// any earlier mapping of that word.
    pub fn add_map(&mut self, new_keys: &str, new_val: &str)
        ensures
            final(self)@ == register(old(self)@, split_spaces_spec(new_keys@), new_val@),
    {
        let toks = split_spaces(new_keys);
        let ghost words: Seq<Seq<char>> = split_spaces_spec(new_keys@);
        let mut j: usize = 0;
        while j < toks.len()
            invariant
                crate::text::views_of(toks@) == words,
                j <= toks@.len(),
                self@ == register(old(self)@, words.take(j as int), new_val@),
            decreases toks@.len() - j,
        {
            let w = toks[j].clone();
            self.insert_word(w, new_val);
            proof {
                assert forall|u: Seq<char>| words.take(j + 1).contains(u) implies (u == words[j as int]
                    || words.take(j as int).contains(u)) by {
                    let k = choose|k: int| 0 <= k < j + 1 && #[trigger] words.take(j + 1)[k] == u;
                    if k < j {
                        assert(words.take(j as int)[k] == u);
                    }
                }
                assert(words.take(j as int).len() <= words.len());
                assert forall|u: Seq<char>| words.take(j as int).contains(u) implies words.take(
                    j + 1,
                ).contains(u) by {
                    let k = choose|k: int| 0 <= k < j && #[trigger] words.take(j as int)[k] == u;
                    assert(words.take(j + 1)[k] == u);
                }
                assert(words.take(j + 1)[j as int] == words[j as int]);
                assert(words.take(j + 1).contains(words[j as int]));
                assert(self@ =~= register(old(self)@, words.take(j + 1), new_val@));
            }
            j = j + 1;
        }
        proof {
            assert(words.take(words.len() as int) =~= words);
        }
    }

    /// Attempts to retrieve the replacement that the given word is mapped to.
    /// Returns it exactly when the word stands in the table; lookup misses
    /// are not errors, only absences.
    pub fn get<'a>(&'a self, word: &str) -> (r: Option<&'a str>)
        ensures
            match r {
                Some(v) => self@.contains_key(word@) && v@ == self@[word@],
                None => !self@.contains_key(word@),
            },
    {
        let ghost es: Seq<(String, String)> = self.entries@;
        let mut i: usize = self.entries.len();
        proof {
            assert(es.take(es.len() as int) =~= es);
        }
        while i > 0
            invariant
                es == self.entries@,
                i <= es.len(),
                assoc(es, word@) == assoc(es.take(i as int), word@),
            decreases i,
    {
            i = i - 1;
            proof {
                assert(es.take(i + 1).drop_last() =~= es.take(i as int));
                assert(es.take(i + 1).last() == es[i as int]);
            }
            if str_eq(self.entries[i].0.as_str(), word) {
                return Some(self.entries[i].1.as_str());
            }
        }
        proof {
            assert(es.take(0) =~= Seq::<(String, String)>::empty());
        }
        None
    }

    /// Runs the given sentence through the mapper as it stands, with no case
    /// folding: each word that is a mapped key is replaced and the rest stay,
    /// and the result is joined with '+' so that token boundaries stay
    /// visible.
    pub fn run_map(&self, the_str: &str) -> (r: String)
        ensures
            r@ == join_with(replace_all(self@, split_spaces_spec(the_str@)), seq!['+']),
    {
        let toks = split_spaces(the_str);
        let mut out: Vec<String> = Vec::new();
        let mut j: usize = 0;
        while j < toks.len()
            invariant
                views_of(toks@) == split_spaces_spec(the_str@),
                j <= toks@.len(),
                views_of(out@) == replace_all(self@, views_of(toks@).take(j as int)),
            decreases toks@.len() - j,
        {
            let ghost t: Seq<char> = views_of(toks@)[j as int];
            let ghost prev: Seq<String> = out@;
            match self.get(toks[j].as_str()) {
                Some(v) => {
                    out.push(String::from_str(v));
                    proof {
                        assert(out@.last()@ == replace_tok(self@, t));
                    }
                },
                None => {
                    out.push(toks[j].clone());
                    proof {
                        assert(out@.last()@ == replace_tok(self@, t));
                    }
                },
            }
            proof {
                assert(out@ == prev.push(out@.last()));
                assert(views_of(out@) =~= views_of(prev).push(replace_tok(self@, t)));
                assert(views_of(toks@).take(j + 1) =~= views_of(toks@).take(j as int).push(t));
                views_of(toks@).take(j as int).lemma_push_map_commute(
                    |u: Seq<char>| replace_tok(self@, u),
                    t,
                );
                assert(views_of(out@) =~= replace_all(self@, views_of(toks@).take(j + 1)));
            }
            j = j + 1;
        }
        proof {
            assert(views_of(toks@).take(toks@.len() as int) =~= views_of(toks@));
        }
        let r = join_strings(&out, "+");
        proof {
            reveal_strlit("+");
            assert("+"@ =~= seq!['+']);
        }
        r
    }
}

/// Every word of a registration's key list is afterwards mapped to that
/// registration's replacement.
pub proof fn lemma_registered_word_maps(
    m: Map<Seq<char>, Seq<char>>,
    keys: Seq<char>,
    val: Seq<char>,
    w: Seq<char>,
)
    requires
        split_spaces_spec(keys).contains(w),
    ensures
        register(m, split_spaces_spec(keys), val).contains_key(w),
        register(m, split_spaces_spec(keys), val)[w] == val,
{
}

/// A word absent from a table and not listed in a registration is still
/// absent afterwards; starting from the empty table, a word that no
/// registration lists is never found.
pub proof fn lemma_unregistered_word_absent(
    m: Map<Seq<char>, Seq<char>>,
    keys: Seq<char>,
    val: Seq<char>,
    w: Seq<char>,
)
    requires
        !m.contains_key(w),
        !split_spaces_spec(keys).contains(w),
    ensures
        !register(m, split_spaces_spec(keys), val).contains_key(w),
{
}

/// Last write wins: a word listed again in a later registration takes the
/// later replacement, whatever an earlier registration assigned to it.
pub proof fn lemma_reregistration_overwrites(
    m: Map<Seq<char>, Seq<char>>,
    keys1: Seq<char>,
    val1: Seq<char>,
    keys2: Seq<char>,
    val2: Seq<char>,
    w: Seq<char>,
)
    requires
        split_spaces_spec(keys2).contains(w),
    ensures
        register(register(m, split_spaces_spec(keys1), val1), split_spaces_spec(keys2), val2)[w]
            == val2,
{
}

} // verus!
