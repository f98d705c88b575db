//! One-shot sentence mapping.  A `MapSentence` holds an input sentence; run
//! through a `WordMap` it yields the original sentence, the sentence with
//! every mapped word replaced, and the distinct words that were and were not
//! replaced.  The whole sentence is ASCII-lowercased before any lookup.

use vstd::prelude::*;
use vstd::string::StringExecFns;

use crate::text::contains_str;
use crate::text::join_strings;
use crate::text::join_with;
use crate::text::lower;
use crate::text::lower_str;
use crate::text::split_spaces;
use crate::text::split_spaces_spec;
use crate::text::views_of;
use crate::wordmap::replace_all;
use crate::wordmap::replace_tok;
use crate::wordmap::WordMap;

verus! {

/// Holds one input sentence, to be mapped through a `WordMap`.  The sentence
/// is kept as given; lowercasing happens only when it is mapped.
pub struct MapSentence {
    input_str: String,
}

/// The tokens a sentence is mapped by: its ASCII-lowercased form split on
/// single spaces.
pub open spec fn sentence_toks(s: Seq<char>) -> Seq<Seq<char>> {
    split_spaces_spec(lower(s))
}

/// The distinct tokens of a list that the table maps, each listed once, at
/// its first occurrence.
pub open spec fn tagged_of(toks: Seq<Seq<char>>, m: Map<Seq<char>, Seq<char>>) -> Seq<Seq<char>>
    decreases toks.len(),
{
    if toks.len() == 0 {
        Seq::<Seq<char>>::empty()
    } else if m.contains_key(toks.last()) && !toks.drop_last().contains(toks.last()) {
        tagged_of(toks.drop_last(), m).push(toks.last())
    } else {
        tagged_of(toks.drop_last(), m)
    }
}

/// The distinct tokens of a list that the table does not map, each listed
/// once, at its first occurrence.
pub open spec fn untagged_of(toks: Seq<Seq<char>>, m: Map<Seq<char>, Seq<char>>) -> Seq<
    Seq<char>,
>
    decreases toks.len(),
{
    if toks.len() == 0 {
        Seq::<Seq<char>>::empty()
    } else if !m.contains_key(toks.last()) && !toks.drop_last().contains(toks.last()) {
        untagged_of(toks.drop_last(), m).push(toks.last())
    } else {
        untagged_of(toks.drop_last(), m)
    }
}

/// A token stands among the tagged tokens exactly when it occurs in the list
/// and the table maps it.
pub proof fn lemma_tagged_of_contains(
    toks: Seq<Seq<char>>,
    m: Map<Seq<char>, Seq<char>>,
    t: Seq<char>,
)
    ensures
        tagged_of(toks, m).contains(t) <==> (toks.contains(t) && m.contains_key(t)),
    decreases toks.len(),
{
    broadcast use vstd::seq_lib::lemma_seq_contains_after_push;

    if toks.len() > 0 {
        lemma_tagged_of_contains(toks.drop_last(), m, t);
        assert(toks.drop_last().push(toks.last()) =~= toks);
    }
}

/// A token stands among the untagged tokens exactly when it occurs in the
/// list and the table does not map it.
pub proof fn lemma_untagged_of_contains(
    toks: Seq<Seq<char>>,
    m: Map<Seq<char>, Seq<char>>,
    t: Seq<char>,
)
    ensures
        untagged_of(toks, m).contains(t) <==> (toks.contains(t) && !m.contains_key(t)),
    decreases toks.len(),
{
    broadcast use vstd::seq_lib::lemma_seq_contains_after_push;

    if toks.len() > 0 {
        lemma_untagged_of_contains(toks.drop_last(), m, t);
        assert(toks.drop_last().push(toks.last()) =~= toks);
    }
}

/// The mapped sentence: every token of the lowercased sentence replaced
/// where the table maps it, joined back with single spaces.
pub open spec fn mapped_sentence(s: Seq<char>, m: Map<Seq<char>, Seq<char>>) -> Seq<char> {
    join_with(replace_all(m, sentence_toks(s)), seq![' '])
}

/// The tagged report line: the distinct replaced tokens, comma-and-space
/// joined in order of first occurrence.
pub open spec fn tagged_line(s: Seq<char>, m: Map<Seq<char>, Seq<char>>) -> Seq<char> {
    join_with(tagged_of(sentence_toks(s), m), seq![',', ' '])
}

/// The untagged report line: the distinct unreplaced tokens, comma-and-space
/// joined in order of first occurrence.
pub open spec fn untagged_line(s: Seq<char>, m: Map<Seq<char>, Seq<char>>) -> Seq<char> {
    join_with(untagged_of(sentence_toks(s), m), seq![',', ' '])
}

/// All four outputs of mapping one sentence through one table: the sentence
/// as given, the mapped sentence, the tagged line and the untagged line.
pub open spec fn apply_view(s: Seq<char>, m: Map<Seq<char>, Seq<char>>) -> (
    Seq<char>,
    Seq<char>,
    Seq<char>,
    Seq<char>,
) {
    (s, mapped_sentence(s, m), tagged_line(s, m), untagged_line(s, m))
}

impl View for MapSentence {
    type V = Seq<char>;

    /// The sentence the mapper was given, unchanged.
    closed spec fn view(&self) -> Seq<char> {
        self.input_str@
    }
}

impl MapSentence {
    /// Takes the sentence to map: sequences of ASCII characters separated by
    /// single spaces.  The sentence is not changed afterwards.
    pub fn new(new_sentence: &str) -> (r: MapSentence)
        ensures
            r@ == new_sentence@,
    {
        MapSentence { input_str: String::from_str(new_sentence) }
    }

    /// Maps the words of the saved sentence through the given table and
    /// returns, in turn: the original sentence, the mapped sentence, the
    /// distinct words that were mapped, and the distinct words that were
    /// not.  The sentence is ASCII-lowercased before it is split and looked
    /// up, so mapping is case-insensitive.
    pub fn mapit(&self, map_obj: &WordMap) -> (r: (String, String, String, String))
        ensures
            (r.0@, r.1@, r.2@, r.3@) == apply_view(self@, map_obj@),
    {
        let ghost m: Map<Seq<char>, Seq<char>> = map_obj@;
        let lc = lower_str(self.input_str.as_str());
        let toks = split_spaces(lc.as_str());
        let ghost tv: Seq<Seq<char>> = views_of(toks@);
        let mut out: Vec<String> = Vec::new();
        let mut tagged: Vec<String> = Vec::new();
        let mut untagged: Vec<String> = Vec::new();
        let mut j: usize = 0;
        while j < toks.len()
            invariant
                tv == sentence_toks(self@),
                tv == views_of(toks@),
                m == map_obj@,
                j <= toks@.len(),
                views_of(out@) == replace_all(m, tv.take(j as int)),
                views_of(tagged@) == tagged_of(tv.take(j as int), m),
                views_of(untagged@) == untagged_of(tv.take(j as int), m),
            decreases toks@.len() - j,
        {
            let ghost t: Seq<char> = tv[j as int];
            let ghost prev_out: Seq<String> = out@;
            proof {
                assert(tv.take(j + 1).drop_last() =~= tv.take(j as int));
                assert(tv.take(j + 1).last() == t);
                lemma_tagged_of_contains(tv.take(j as int), m, t);
                lemma_untagged_of_contains(tv.take(j as int), m, t);
            }
            match map_obj.get(toks[j].as_str()) {
                Some(subst) => {
                    out.push(String::from_str(subst));
                    proof {
                        assert(out@.last()@ == replace_tok(m, t));
                    }
                    if !contains_str(&tagged, toks[j].as_str()) {
                        tagged.push(toks[j].clone());
                        proof {
                            assert(views_of(tagged@) =~= tagged_of(tv.take(j + 1), m));
                        }
                    }
                    proof {
                        assert(views_of(tagged@) =~= tagged_of(tv.take(j + 1), m));
                        assert(views_of(untagged@) =~= untagged_of(tv.take(j + 1), m));
                    }
                },
                None => {
                    out.push(toks[j].clone());
                    proof {
                        assert(out@.last()@ == replace_tok(m, t));
                    }
                    if !contains_str(&untagged, toks[j].as_str()) {
                        untagged.push(toks[j].clone());
                        proof {
                            assert(views_of(untagged@) =~= untagged_of(tv.take(j + 1), m));
                        }
                    }
                    proof {
                        assert(views_of(untagged@) =~= untagged_of(tv.take(j + 1), m));
                        assert(views_of(tagged@) =~= tagged_of(tv.take(j + 1), m));
                    }
                },
            }
            proof {
                assert(out@ == prev_out.push(out@.last()));
                assert(views_of(out@) =~= views_of(prev_out).push(replace_tok(m, t)));
                tv.take(j as int).lemma_push_map_commute(|u: Seq<char>| replace_tok(m, u), t);
                assert(tv.take(j + 1) =~= tv.take(j as int).push(t));
                assert(views_of(out@) =~= replace_all(m, tv.take(j + 1)));
            }
            j = j + 1;
        }
        proof {
            assert(tv.take(tv.len() as int) =~= tv);
        }
        let mapped = join_strings(&out, " ");
        let tagged_str = join_strings(&tagged, ", ");
        let untagged_str = join_strings(&untagged, ", ");
        proof {
            reveal_strlit(" ");
            reveal_strlit(", ");
            assert(" "@ =~= seq![' ']);
            assert(", "@ =~= seq![',', ' ']);
        }
        (self.input_str.clone(), mapped, tagged_str, untagged_str)
    }
}

/// Applying the same table to the same sentence twice yields identical
/// results: all four outputs are functions of the sentence and the table
/// alone, so any two applications to the same pair agree.
pub proof fn lemma_apply_idempotent(
    s: Seq<char>,
    m: Map<Seq<char>, Seq<char>>,
    first: (Seq<char>, Seq<char>, Seq<char>, Seq<char>),
    second: (Seq<char>, Seq<char>, Seq<char>, Seq<char>),
)
    requires
        first == apply_view(s, m),
        second == apply_view(s, m),
    ensures
        first == second,
{
}

/// Sentence mapping is ASCII-case-insensitive: two sentences whose lowercase
/// forms agree are replaced, tagged and untagged alike; only the echoed
/// original sentence tells them apart.
pub proof fn lemma_case_insensitive(s1: Seq<char>, s2: Seq<char>, m: Map<Seq<char>, Seq<char>>)
    requires
        lower(s1) == lower(s2),
    ensures
        mapped_sentence(s1, m) == mapped_sentence(s2, m),
        tagged_line(s1, m) == tagged_line(s2, m),
        untagged_line(s1, m) == untagged_line(s2, m),
{
}

} // verus!
