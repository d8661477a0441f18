//! In-memory vocabulary: four word classes with deduplicating merge, and
//! the per-language store the synchronization step works on.

use vstd::prelude::*;

verus! {

/// Supported output languages.
#[derive(Clone, Copy, Debug, PartialEq, Eq, Structural)]
pub enum Language {
    English,
    Japanese,
    Chinese,
}

/// View of a list of words as a sequence of character sequences.
pub open spec fn strs_view(s: Seq<String>) -> Seq<Seq<char>> {
    s.map_values(|x: String| x@)
}

/// Adds a word to a class unless it is already present.
pub open spec fn add_unique(s: Seq<Seq<char>>, w: Seq<char>) -> Seq<Seq<char>> {
    if s.contains(w) {
        s
    } else {
        s.push(w)
    }
}

/// Adds every word of `ws` in order, each unless already present.
pub open spec fn add_all(s: Seq<Seq<char>>, ws: Seq<Seq<char>>) -> Seq<Seq<char>>
    decreases ws.len(),
{
    if ws.len() == 0 {
        s
    } else {
        add_all(add_unique(s, ws[0]), ws.drop_first())
    }
}

/// The merged form of one word class: the words of `a` then those of `b`,
/// first occurrences kept, duplicates discarded.
pub open spec fn merge_class(a: Seq<Seq<char>>, b: Seq<Seq<char>>) -> Seq<Seq<char>> {
    add_all(add_all(Seq::empty(), a), b)
}

/// No word occurs twice within the class.
pub open spec fn no_dup(s: Seq<Seq<char>>) -> bool {
    forall|i: int, j: int| 0 <= i < j < s.len() ==> s[i] != s[j]
}

pub proof fn lemma_add_unique_set(s: Seq<Seq<char>>, w: Seq<char>)
    ensures
        add_unique(s, w).to_set() =~= s.to_set().insert(w),
{
    if s.contains(w) {
        assert(s.to_set().contains(w));
    } else {
        let p = s.push(w);
        assert forall|x: Seq<char>| p.to_set().contains(x) implies s.to_set().insert(w).contains(
            x,
        ) by {
            let i = choose|i: int| 0 <= i < p.len() && p[i] == x;
            if i < s.len() {
                assert(s[i] == x);
            }
        }
        assert forall|x: Seq<char>| s.to_set().insert(w).contains(x) implies p.to_set().contains(
            x,
        ) by {
            if s.contains(x) {
                let i = choose|i: int| 0 <= i < s.len() && s[i] == x;
                assert(p[i] == x);
            } else {
                assert(p[s.len() as int] == w);
            }
        }
    }
}

pub proof fn lemma_add_unique_nodup(s: Seq<Seq<char>>, w: Seq<char>)
    requires
        no_dup(s),
    ensures
        no_dup(add_unique(s, w)),
{
    if !s.contains(w) {
        let p = s.push(w);
        assert forall|i: int, j: int| 0 <= i < j < p.len() implies p[i] != p[j] by {
            if j < s.len() {
            } else {
                assert(p[j] == w);
                assert(p[i] == s[i]);
                assert(!s.contains(w));
            }
        }
    }
}

pub proof fn lemma_seq_head_set(ws: Seq<Seq<char>>)
    requires
        ws.len() > 0,
    ensures
        ws.to_set() =~= ws.drop_first().to_set().insert(ws[0]),
{
    let rest = ws.drop_first();
    assert forall|x: Seq<char>| ws.to_set().contains(x) implies rest.to_set().insert(w0(ws)).contains(
        x,
    ) by {
        let i = choose|i: int| 0 <= i < ws.len() && ws[i] == x;
        if i > 0 {
            assert(rest[i - 1] == x);
        }
    }
    assert forall|x: Seq<char>| rest.to_set().insert(w0(ws)).contains(x) implies ws.to_set().contains(
        x,
    ) by {
        if rest.contains(x) {
            let i = choose|i: int| 0 <= i < rest.len() && rest[i] == x;
            assert(ws[i + 1] == x);
        } else {
            assert(ws[0] == x);
        }
    }
}

/// First word of a non-empty class.
pub open spec fn w0(ws: Seq<Seq<char>>) -> Seq<char>
    recommends
        ws.len() > 0,
{
    ws[0]
}

pub proof fn lemma_add_all_set(s: Seq<Seq<char>>, ws: Seq<Seq<char>>)
    ensures
        add_all(s, ws).to_set() =~= s.to_set() + ws.to_set(),
    decreases ws.len(),
{
    if ws.len() == 0 {
        assert(ws.to_set() =~= Set::<Seq<char>>::empty());
        assert(s.to_set() + ws.to_set() =~= s.to_set());
    } else {
        lemma_add_all_set(add_unique(s, ws[0]), ws.drop_first());
        lemma_add_unique_set(s, ws[0]);
        lemma_seq_head_set(ws);
        assert(add_all(s, ws).to_set() =~= (s.to_set().insert(ws[0])) + ws.drop_first().to_set());
        assert((s.to_set().insert(ws[0])) + ws.drop_first().to_set() =~= s.to_set() + ws.to_set());
    }
}

pub proof fn lemma_add_all_nodup(s: Seq<Seq<char>>, ws: Seq<Seq<char>>)
    requires
        no_dup(s),
    ensures
        no_dup(add_all(s, ws)),
    decreases ws.len(),
{
    if ws.len() > 0 {
        lemma_add_unique_nodup(s, ws[0]);
        lemma_add_all_nodup(add_unique(s, ws[0]), ws.drop_first());
    }
}

pub proof fn lemma_merge_class_set(a: Seq<Seq<char>>, b: Seq<Seq<char>>)
    ensures
        merge_class(a, b).to_set() =~= a.to_set() + b.to_set(),
{
    lemma_add_all_set(Seq::empty(), a);
    lemma_add_all_set(add_all(Seq::empty(), a), b);
    assert(Seq::<Seq<char>>::empty().to_set() =~= Set::empty());
}

pub proof fn lemma_merge_class_nodup(a: Seq<Seq<char>>, b: Seq<Seq<char>>)
    ensures
        no_dup(merge_class(a, b)),
{
    lemma_add_all_nodup(Seq::empty(), a);
    lemma_add_all_nodup(add_all(Seq::empty(), a), b);
}

/// Merging is idempotent: merging `b` into an already-merged class changes
/// nothing, as sets per class.
pub proof fn lemma_merge_idempotent(a: Seq<Seq<char>>, b: Seq<Seq<char>>)
    ensures
        merge_class(merge_class(a, b), b).to_set() =~= merge_class(a, b).to_set(),
{
    lemma_merge_class_set(a, b);
    lemma_merge_class_set(merge_class(a, b), b);
}

/// The merged set content does not depend on the order of the operands.
pub proof fn lemma_merge_commutative(a: Seq<Seq<char>>, b: Seq<Seq<char>>)
    ensures
        merge_class(a, b).to_set() =~= merge_class(b, a).to_set(),
{
    lemma_merge_class_set(a, b);
    lemma_merge_class_set(b, a);
}

/// Ghost image of a `VocabularyData`: the four word classes as sequences
/// of character sequences.
#[verifier::ext_equal]
pub struct VocabView {
    pub nouns: Seq<Seq<char>>,
    pub particles: Seq<Seq<char>>,
    pub verbs: Seq<Seq<char>>,
    pub adverbs: Seq<Seq<char>>,
}

/// Four word classes; conceptually sets, kept in first-occurrence order so
/// that index-based lookups stay reproducible within a run.
#[derive(Clone, Debug)]
pub struct VocabularyData {
    pub nouns: Vec<String>,
    pub particles: Vec<String>,
    pub verbs: Vec<String>,
    pub adverbs: Vec<String>,
}

impl View for VocabularyData {
    type V = VocabView;

    open spec fn view(&self) -> VocabView {
        VocabView {
            nouns: strs_view(self.nouns@),
            particles: strs_view(self.particles@),
            verbs: strs_view(self.verbs@),
            adverbs: strs_view(self.adverbs@),
        }
    }
}

/// True when every class is empty.
pub open spec fn vocab_is_empty(v: VocabView) -> bool {
    v.nouns.len() == 0 && v.particles.len() == 0 && v.verbs.len() == 0 && v.adverbs.len() == 0
}

/// True when `w` is present in `v`.
fn contains_word(v: &Vec<String>, w: &String) -> (r: bool)
    ensures
        r == strs_view(v@).contains(w@),
{
    let n: usize = v.len();
    let mut i: usize = 0;
    while i < n
        invariant
            n == v@.len(),
            0 <= i <= n,
            forall|j: int| 0 <= j < i ==> strs_view(v@)[j] != w@,
        decreases n - i,
    {
        let x: &String = &v[i];
        if x.eq(w) {
            proof {
                assert(strs_view(v@)[i as int] == w@);
            }
            return true;
        }
        i = i + 1;
    }
    proof {
        assert forall|j: int| 0 <= j < strs_view(v@).len() implies strs_view(v@)[j] != w@ by {}
    }
    false
}

/// Appends `w` to the class unless already present.
pub fn add_word(dst: &mut Vec<String>, w: String)
    ensures
        strs_view(final(dst)@) == add_unique(strs_view(old(dst)@), w@),
{
    if !contains_word(dst, &w) {
        dst.push(w);
        proof {
            assert(strs_view(dst@) =~= add_unique(strs_view(old(dst)@), w@));
        }
    }
}

/// Adds every word of `src` in order, skipping duplicates.
fn add_words(dst: &mut Vec<String>, src: &Vec<String>)
    ensures
        strs_view(final(dst)@) == add_all(strs_view(old(dst)@), strs_view(src@)),
{
    let n: usize = src.len();
    let mut i: usize = 0;
    proof {
        assert(strs_view(src@).skip(0) =~= strs_view(src@));
    }
    while i < n
        invariant
            n == src@.len(),
            0 <= i <= n,
            add_all(strs_view(old(dst)@), strs_view(src@)) == add_all(
                strs_view(dst@),
                strs_view(src@).skip(i as int),
            ),
        decreases n - i,
    {
        let ghost pre = strs_view(dst@);
        let ghost rem = strs_view(src@).skip(i as int);
        let w: String = (&src[i]).clone();
        add_word(dst, w);
        proof {
            assert(rem.len() > 0);
            assert(rem[0] == strs_view(src@)[i as int]);
            assert(rem.drop_first() =~= strs_view(src@).skip(i + 1));
            assert(add_all(pre, rem) == add_all(add_unique(pre, rem[0]), rem.drop_first()));
        }
        i = i + 1;
    }
    proof {
        assert(strs_view(src@).skip(n as int).len() == 0);
    }
}

impl VocabularyData {
    /// The vocabulary with every class empty.
    pub fn empty() -> (r: VocabularyData)
        ensures
            r@.nouns.len() == 0,
            r@.particles.len() == 0,
            r@.verbs.len() == 0,
            r@.adverbs.len() == 0,
    {
        let r = VocabularyData {
            nouns: Vec::new(),
            particles: Vec::new(),
            verbs: Vec::new(),
            adverbs: Vec::new(),
        };
        r
    }

    /// True when at least one class holds a word.
    pub fn has_entries(&self) -> (r: bool)
        ensures
            r == !vocab_is_empty(self@),
    {
        self.nouns.len() > 0 || self.particles.len() > 0 || self.verbs.len() > 0
            || self.adverbs.len() > 0
    }

    /// Merges another vocabulary into this one, class by class: the result
    /// per class is the union as a set, free of duplicates, in
    /// first-occurrence order (own words first, then the other's).
    pub fn merge(&mut self, other: VocabularyData)
        ensures
            final(self)@.nouns == merge_class(old(self)@.nouns, other@.nouns),
            final(self)@.particles == merge_class(old(self)@.particles, other@.particles),
            final(self)@.verbs == merge_class(old(self)@.verbs, other@.verbs),
            final(self)@.adverbs == merge_class(old(self)@.adverbs, other@.adverbs),
            final(self)@.nouns.to_set() == old(self)@.nouns.to_set() + other@.nouns.to_set(),
            final(self)@.particles.to_set() == old(self)@.particles.to_set()
                + other@.particles.to_set(),
            final(self)@.verbs.to_set() == old(self)@.verbs.to_set() + other@.verbs.to_set(),
            final(self)@.adverbs.to_set() == old(self)@.adverbs.to_set() + other@.adverbs.to_set(),
            no_dup(final(self)@.nouns),
            no_dup(final(self)@.particles),
            no_dup(final(self)@.verbs),
            no_dup(final(self)@.adverbs),
    {
        let mut nouns: Vec<String> = Vec::new();
        let mut particles: Vec<String> = Vec::new();
        let mut verbs: Vec<String> = Vec::new();
        let mut adverbs: Vec<String> = Vec::new();
        proof {
            assert(strs_view(nouns@) =~= Seq::<Seq<char>>::empty());
            assert(strs_view(particles@) =~= Seq::<Seq<char>>::empty());
            assert(strs_view(verbs@) =~= Seq::<Seq<char>>::empty());
            assert(strs_view(adverbs@) =~= Seq::<Seq<char>>::empty());
        }
        add_words(&mut nouns, &self.nouns);
        add_words(&mut particles, &self.particles);
        add_words(&mut verbs, &self.verbs);
        add_words(&mut adverbs, &self.adverbs);
        add_words(&mut nouns, &other.nouns);
        add_words(&mut particles, &other.particles);
        add_words(&mut verbs, &other.verbs);
        add_words(&mut adverbs, &other.adverbs);
        self.nouns = nouns;
        self.particles = particles;
        self.verbs = verbs;
        self.adverbs = adverbs;
        proof {
            lemma_merge_class_set(old(self)@.nouns, other@.nouns);
            lemma_merge_class_set(old(self)@.particles, other@.particles);
            lemma_merge_class_set(old(self)@.verbs, other@.verbs);
            lemma_merge_class_set(old(self)@.adverbs, other@.adverbs);
            lemma_merge_class_nodup(old(self)@.nouns, other@.nouns);
            lemma_merge_class_nodup(old(self)@.particles, other@.particles);
            lemma_merge_class_nodup(old(self)@.verbs, other@.verbs);
            lemma_merge_class_nodup(old(self)@.adverbs, other@.adverbs);
        }
    }
}

/// Ghost image of a `LanguageVocabularies`.
#[verifier::ext_equal]
pub struct AllView {
    pub english: VocabView,
    pub japanese: VocabView,
    pub chinese: VocabView,
}

/// One vocabulary per supported language; persisted as a single file.
#[derive(Clone, Debug)]
pub struct LanguageVocabularies {
    pub english: VocabularyData,
    pub japanese: VocabularyData,
    pub chinese: VocabularyData,
}

impl View for LanguageVocabularies {
    type V = AllView;

    open spec fn view(&self) -> AllView {
        AllView { english: self.english@, japanese: self.japanese@, chinese: self.chinese@ }
    }
}

/// The class views of the vocabulary of one language.
pub open spec fn vocab_of(all: AllView, language: Language) -> VocabView {
    match language {
        Language::English => all.english,
        Language::Japanese => all.japanese,
        Language::Chinese => all.chinese,
    }
}

/// The merged form of a whole vocabulary, class by class.
pub open spec fn merged_vocab(a: VocabView, b: VocabView) -> VocabView {
    VocabView {
        nouns: merge_class(a.nouns, b.nouns),
        particles: merge_class(a.particles, b.particles),
        verbs: merge_class(a.verbs, b.verbs),
        adverbs: merge_class(a.adverbs, b.adverbs),
    }
}

/// Folds freshly extracted vocabulary into the store. When something was
/// extracted, the target language's vocabulary is merged with it and the
/// result must be persisted; an empty or absent extraction leaves the
/// store untouched and asks for no persist.
pub fn sync_vocabulary(
    all: &mut LanguageVocabularies,
    language: Language,
    extracted: Option<VocabularyData>,
) -> (persist: bool)
    ensures
        persist == (extracted is Some && !vocab_is_empty(extracted->0@)),
        !persist ==> *final(all) == *old(all),
        persist ==> vocab_of(final(all)@, language) == merged_vocab(
            vocab_of(old(all)@, language),
            extracted->0@,
        ),
        persist ==> forall|l: Language|
            l != language ==> vocab_of(final(all)@, l) == vocab_of(old(all)@, l),
{
    match extracted {
        Option::None => false,
        Option::Some(e) => {
            if e.has_entries() {
                match language {
                    Language::English => {
                        all.english.merge(e);
                    },
                    Language::Japanese => {
                        all.japanese.merge(e);
                    },
                    Language::Chinese => {
                        all.chinese.merge(e);
                    },
                }
                true
            } else {
                false
            }
        },
    }
}

} // verus!
