//! Rendering of a final state into a sentence from the vocabulary.
//!
//! The state entries are ordered by decreasing absolute value (stable, so
//! the result is reproducible within a run) and words are picked from the
//! four classes by index arithmetic on the strongest dimensions.

use vstd::prelude::*;
use vstd::string::StringExecFns;

verus! {

use crate::SCALE;
use crate::fixed::{abs_spec, tdiv, div_trunc, abs_scaled};
use crate::vocab::{Language, VocabView, VocabularyData, LanguageVocabularies};

/// Stable insertion of `x` into a list ordered by decreasing absolute
/// value: `x` goes after every entry at least as strong as it.
pub open spec fn sort_insert(s: Seq<(u64, i64)>, x: (u64, i64)) -> Seq<(u64, i64)>
    decreases s.len(),
{
    if s.len() == 0 {
        seq![x]
    } else if abs_spec(x.1 as int) > abs_spec(s[0].1 as int) {
        seq![x] + s
    } else {
        seq![s[0]] + sort_insert(s.drop_first(), x)
    }
}

/// The state entries in decreasing order of absolute value; ties keep
/// their original order.
pub open spec fn sort_by_abs(s: Seq<(u64, i64)>) -> Seq<(u64, i64)>
    decreases s.len(),
{
    if s.len() == 0 {
        Seq::empty()
    } else {
        sort_insert(sort_by_abs(s.drop_last()), s.last())
    }
}

/// The word of `class` at `idx`, wrapped by the class size.
pub open spec fn pick(class: Seq<Seq<char>>, idx: int) -> Seq<char>
    recommends
        class.len() > 0,
        idx >= 0,
{
    class[idx % class.len() as int]
}

pub open spec fn sep_str(language: Language) -> Seq<char> {
    if language == Language::English {
        ", "@
    } else {
        "、"@
    }
}

pub open spec fn end_str(language: Language) -> Seq<char> {
    if language == Language::English {
        "."@
    } else {
        "。"@
    }
}

/// The noun+particle pairs contributed by the sorted entries at positions
/// `[i, k)`.
pub open spec fn np_part(vocab: VocabView, sorted: Seq<(u64, i64)>, i: int, k: int) -> Seq<char>
    recommends
        vocab.nouns.len() > 0,
        vocab.particles.len() > 0,
        0 <= i,
        k <= sorted.len(),
    decreases k - i,
{
    if i >= k {
        Seq::empty()
    } else {
        pick(vocab.nouns, sorted[i].0 as int) + pick(
            vocab.particles,
            vstd::wrapping::u64_specs::wrapping_add(sorted[i].0, i as u64) as int,
        ) + np_part(vocab, sorted, i + 1, k)
    }
}

/// The assembled sentence: adverb chosen by the peak intensity, a
/// separator, up to three noun+particle pairs, the verb of the strongest
/// dimension, and the closing mark.
pub open spec fn sentence_of(language: Language, vocab: VocabView, sorted: Seq<(u64, i64)>) -> Seq<
    char,
>
    recommends
        sorted.len() > 0,
        vocab.adverbs.len() > 0,
        vocab.nouns.len() > 0,
        vocab.particles.len() > 0,
        vocab.verbs.len() > 0,
{
    let intensity = abs_spec(sorted[0].1 as int);
    let k: int = if sorted.len() < 3 {
        sorted.len() as int
    } else {
        3
    };
    pick(vocab.adverbs, tdiv(intensity * 100, SCALE as int)) + sep_str(language) + np_part(
        vocab,
        sorted,
        0,
        k,
    ) + pick(vocab.verbs, sorted[0].0 as int) + end_str(language)
}

proof fn lemma_sort_insert_at(s: Seq<(u64, i64)>, x: (u64, i64), j: int)
    requires
        0 <= j <= s.len(),
        forall|k: int| 0 <= k < j ==> abs_spec(x.1 as int) <= abs_spec(#[trigger] s[k].1 as int),
        j < s.len() ==> abs_spec(x.1 as int) > abs_spec(s[j].1 as int),
    ensures
        sort_insert(s, x) =~= s.take(j) + seq![x] + s.skip(j),
    decreases s.len(),
{
    if s.len() == 0 {
        assert(sort_insert(s, x) =~= seq![x]);
    } else if j == 0 {
        assert(sort_insert(s, x) =~= seq![x] + s);
    } else {
        assert(abs_spec(x.1 as int) <= abs_spec(s[0].1 as int));
        lemma_sort_insert_at(s.drop_first(), x, j - 1);
        assert(s.drop_first().take(j - 1) =~= s.take(j).drop_first());
        assert(s.drop_first().skip(j - 1) =~= s.skip(j));
        assert(sort_insert(s, x) =~= seq![s[0]] + (s.drop_first().take(j - 1) + seq![x]
            + s.drop_first().skip(j - 1)));
    }
}

/// Sorts the entries by decreasing absolute value, stably.
fn sorted_by_abs(state: &Vec<(u64, i64)>) -> (r: Vec<(u64, i64)>)
    requires
        forall|i: int| 0 <= i < state@.len() ==> -SCALE <= #[trigger] state@[i].1 <= SCALE,
    ensures
        r@ == sort_by_abs(state@),
        r@.len() == state@.len(),
        forall|i: int| 0 <= i < r@.len() ==> -SCALE <= #[trigger] r@[i].1 <= SCALE,
{
    let n: usize = state.len();
    let mut r: Vec<(u64, i64)> = Vec::new();
    let mut i: usize = 0;
    proof {
        assert(state@.take(0) =~= Seq::<(u64, i64)>::empty());
        assert(r@ =~= sort_by_abs(state@.take(0)));
    }
    while i < n
        invariant
            n == state@.len(),
            forall|t: int| 0 <= t < state@.len() ==> -SCALE <= #[trigger] state@[t].1 <= SCALE,
            0 <= i <= n,
            r@ == sort_by_abs(state@.take(i as int)),
            r@.len() == i,
            forall|t: int| 0 <= t < r@.len() ==> -SCALE <= #[trigger] r@[t].1 <= SCALE,
        decreases n - i,
    {
        let x: (u64, i64) = state[i];
        let ax: i64 = abs_scaled(x.1);
        let mut j: usize = 0;
        while j < r.len() && ax <= abs_scaled(r[j].1)
            invariant
                r@.len() == i,
                ax == abs_spec(x.1 as int),
                forall|t: int| 0 <= t < r@.len() ==> -SCALE <= #[trigger] r@[t].1 <= SCALE,
                0 <= j <= r@.len(),
                forall|t: int|
                    0 <= t < j ==> abs_spec(x.1 as int) <= abs_spec(#[trigger] r@[t].1 as int),
            decreases r@.len() - j,
        {
            j = j + 1;
        }
        proof {
            lemma_sort_insert_at(r@, x, j as int);
            assert(state@.take(i + 1).drop_last() =~= state@.take(i as int));
            assert(state@.take(i + 1).last() == state@[i as int]);
            assert(r@.take(j as int) + seq![x] + r@.skip(j as int) =~= r@.insert(j as int, x));
        }
        r.insert(j, x);
        i = i + 1;
    }
    proof {
        assert(state@.take(n as int) =~= state@);
    }
    r
}

pub struct LinguisticAssembler {
    pub language: Language,
    pub vocab: VocabularyData,
}

impl LinguisticAssembler {
    /// An assembler for the given language over an already-synchronized
    /// vocabulary.
    pub fn new(language: Language, vocab: VocabularyData) -> (r: LinguisticAssembler)
        ensures
            r.language == language,
            r.vocab == vocab,
    {
        LinguisticAssembler { language, vocab }
    }

    /// The built-in fallback vocabularies, non-empty in every class.
    pub fn get_default_all_vocabs() -> (r: LanguageVocabularies)
        ensures
            r@.english.nouns =~= seq!["Silence"@],
            r@.english.particles =~= seq!["is"@],
            r@.english.verbs =~= seq!["drifting"@],
            r@.english.adverbs =~= seq!["Gently"@],
            r@.japanese.nouns =~= seq!["静寂"@, "思考"@, "技術"@, "日常"@],
            r@.japanese.particles =~= seq!["は"@, "の"@, "に"@],
            r@.japanese.verbs =~= seq!["加速する"@, "共鳴する"@],
            r@.japanese.adverbs =~= seq!["徐々に"@, "突如として"@],
            r@.chinese.nouns =~= seq!["宁静"@],
            r@.chinese.particles =~= seq!["是"@],
            r@.chinese.verbs =~= seq!["漂流"@],
            r@.chinese.adverbs =~= seq!["温柔地"@],
    {
        let english = VocabularyData {
            nouns: vec!["Silence".to_owned()],
            particles: vec!["is".to_owned()],
            verbs: vec!["drifting".to_owned()],
            adverbs: vec!["Gently".to_owned()],
        };
        let japanese = VocabularyData {
            nouns: vec![
                "静寂".to_owned(),
                "思考".to_owned(),
                "技術".to_owned(),
                "日常".to_owned(),
            ],
            particles: vec!["は".to_owned(), "の".to_owned(), "に".to_owned()],
            verbs: vec!["加速する".to_owned(), "共鳴する".to_owned()],
            adverbs: vec!["徐々に".to_owned(), "突如として".to_owned()],
        };
        let chinese = VocabularyData {
            nouns: vec!["宁静".to_owned()],
            particles: vec!["是".to_owned()],
            verbs: vec!["漂流".to_owned()],
            adverbs: vec!["温柔地".to_owned()],
        };
        LanguageVocabularies { english, japanese, chinese }
    }

    /// Renders the state as a sentence. An empty state or a vocabulary
    /// with an empty class yields the fixed fallback message; otherwise
    /// the sentence follows `sentence_of` over the stably sorted entries.
    pub fn assemble(&self, state: &Vec<(u64, i64)>) -> (r: String)
        requires
            forall|i: int| 0 <= i < state@.len() ==> -SCALE <= #[trigger] state@[i].1 <= SCALE,
        ensures
            (state@.len() == 0 || self.vocab@.adverbs.len() == 0 || self.vocab@.nouns.len() == 0
                || self.vocab@.particles.len() == 0 || self.vocab@.verbs.len() == 0) ==> r@
                == "語彙が不足しています。"@,
            (state@.len() > 0 && self.vocab@.adverbs.len() > 0 && self.vocab@.nouns.len() > 0
                && self.vocab@.particles.len() > 0 && self.vocab@.verbs.len() > 0) ==> r@
                == sentence_of(self.language, self.vocab@, sort_by_abs(state@)),
    {
        if state.len() == 0 || self.vocab.adverbs.len() == 0 || self.vocab.nouns.len() == 0
            || self.vocab.particles.len() == 0 || self.vocab.verbs.len() == 0 {
            return "語彙が不足しています。".to_owned();
        }
        let ghost vocab = self.vocab@;
        let sorted: Vec<(u64, i64)> = sorted_by_abs(state);
        let ghost ss = sort_by_abs(state@);
        let first: (u64, i64) = sorted[0];
        let intensity: i64 = abs_scaled(first.1);
        let adv_idx: i64 = div_trunc(intensity * 100, SCALE);
        proof {
            vstd::arithmetic::div_mod::lemma_div_pos_is_pos(intensity * 100, SCALE as int);
            assert(intensity * 100 >= 0) by (nonlinear_arith)
                requires intensity >= 0;
        }
        let mut out: String = pick_word(&self.vocab.adverbs, adv_idx as u64);
        if matches!(self.language, Language::English) {
            out.append(", ");
        } else {
            out.append("、");
        }
        let k: usize = if sorted.len() < 3 {
            sorted.len()
        } else {
            3
        };
        let ghost base = pick(vocab.adverbs, tdiv(abs_spec(ss[0].1 as int) * 100, SCALE as int))
            + sep_str(self.language);
        proof {
            assert(out@ == base);
        }
        let mut i: usize = 0;
        proof {
            assert(out@ + np_part(vocab, ss, 0, k as int) == base + np_part(vocab, ss, 0, k as int));
        }
        while i < k
            invariant
                sorted@ == ss,
                vocab == self.vocab@,
                vocab.nouns.len() > 0,
                vocab.particles.len() > 0,
                0 <= i <= k <= sorted@.len(),
                out@ + np_part(vocab, ss, i as int, k as int) == base + np_part(
                    vocab,
                    ss,
                    0,
                    k as int,
                ),
            decreases k - i,
        {
            let entry: (u64, i64) = sorted[i];
            let noun: String = pick_word(&self.vocab.nouns, entry.0);
            let particle: String = pick_word(&self.vocab.particles, entry.0.wrapping_add(i as u64));
            proof {
                assert(np_part(vocab, ss, i as int, k as int) == pick(vocab.nouns, ss[i as int].0 as int)
                    + pick(
                    vocab.particles,
                    vstd::wrapping::u64_specs::wrapping_add(ss[i as int].0, i as u64) as int,
                ) + np_part(vocab, ss, i + 1, k as int));
            }
            out.append(noun.as_str());
            out.append(particle.as_str());
            i = i + 1;
        }
        proof {
            assert(np_part(vocab, ss, k as int, k as int) =~= Seq::<char>::empty());
            assert(out@ + np_part(vocab, ss, k as int, k as int) =~= out@);
            assert(out@ =~= base + np_part(vocab, ss, 0, k as int));
        }
        let verb: String = pick_word(&self.vocab.verbs, first.0);
        out.append(verb.as_str());
        if matches!(self.language, Language::English) {
            out.append(".");
        } else {
            out.append("。");
        }
        proof {
            assert(out@ =~= sentence_of(self.language, vocab, ss));
        }
        out
    }
}

/// The word of `class` at index `idx % class.len()`.
fn pick_word(class: &Vec<String>, idx: u64) -> (r: String)
    requires
        class@.len() > 0,
    ensures
        r@ == pick(crate::vocab::strs_view(class@), idx as int),
{
    let len: u64 = class.len() as u64;
    let at: usize = (idx % len) as usize;
    (&class[at]).clone()
}

} // verus!
