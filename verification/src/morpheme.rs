//! Extraction of vocabulary from tabular morphological-analysis data.
//!
//! The first line is a header and is skipped. Every other line is split on
//! commas when it contains one, otherwise on tabs. A line with more than 7
//! fields contributes its surface form (field 2, trimmed of surrounding
//! whitespace and quote characters) to the class chosen by substring match
//! on the part-of-speech tag (field 6); everything else is skipped
//! silently.

use vstd::prelude::*;

verus! {

use crate::vocab::{add_unique, strs_view, VocabView, VocabularyData};
use crate::strutil::{chars_of, string_from_chars};

#[derive(Clone, Copy, Debug, PartialEq, Eq, Structural)]
pub enum WordClass {
    Noun,
    Particle,
    Verb,
    Adverb,
}

pub open spec fn is_ws(c: char) -> bool {
    c == ' ' || c == '\t' || c == '\r' || c == '\n'
}

pub open spec fn trim_leading(s: Seq<char>) -> Seq<char>
    decreases s.len(),
{
    if s.len() > 0 && is_ws(s[0]) {
        trim_leading(s.drop_first())
    } else {
        s
    }
}

pub open spec fn trim_trailing(s: Seq<char>) -> Seq<char>
    decreases s.len(),
{
    if s.len() > 0 && is_ws(s.last()) {
        trim_trailing(s.drop_last())
    } else {
        s
    }
}

pub open spec fn strip_leading_quotes(s: Seq<char>) -> Seq<char>
    decreases s.len(),
{
    if s.len() > 0 && s[0] == '"' {
        strip_leading_quotes(s.drop_first())
    } else {
        s
    }
}

pub open spec fn strip_trailing_quotes(s: Seq<char>) -> Seq<char>
    decreases s.len(),
{
    if s.len() > 0 && s.last() == '"' {
        strip_trailing_quotes(s.drop_last())
    } else {
        s
    }
}

/// The surface form as it is kept: whitespace trimmed from both ends,
/// then surrounding quote characters removed.
pub open spec fn clean_word(s: Seq<char>) -> Seq<char> {
    strip_trailing_quotes(strip_leading_quotes(trim_trailing(trim_leading(s))))
}

/// Splitting with an accumulator: `cur` is the field being read, `acc`
/// the fields already finished.
pub open spec fn split_acc(s: Seq<char>, d: char, cur: Seq<char>, acc: Seq<Seq<char>>) -> Seq<
    Seq<char>,
>
    decreases s.len(),
{
    if s.len() == 0 {
        acc.push(cur)
    } else if s[0] == d {
        split_acc(s.drop_first(), d, Seq::empty(), acc.push(cur))
    } else {
        split_acc(s.drop_first(), d, cur.push(s[0]), acc)
    }
}

/// The fields of `s`, split on the delimiter `d`.
pub open spec fn split_char(s: Seq<char>, d: char) -> Seq<Seq<char>> {
    split_acc(s, d, Seq::empty(), Seq::empty())
}

/// True when `n` occurs contiguously in `h`.
pub open spec fn is_substring(n: Seq<char>, h: Seq<char>) -> bool {
    exists|k: int|
        0 <= k <= h.len() - n.len() && #[trigger] h.subrange(k, k + n.len() as int) == n
}

/// Part-of-speech classification: substring match against the four
/// category markers, in fixed priority order (noun-like first, then
/// particle, verb, adverb).
pub open spec fn classify(pos: Seq<char>) -> Option<WordClass> {
    if is_substring("名詞"@, pos) || is_substring("代名詞"@, pos) || is_substring(
        "接尾辞"@,
        pos,
    ) {
        Some(WordClass::Noun)
    } else if is_substring("助詞"@, pos) {
        Some(WordClass::Particle)
    } else if is_substring("動詞"@, pos) {
        Some(WordClass::Verb)
    } else if is_substring("副詞"@, pos) {
        Some(WordClass::Adverb)
    } else {
        None
    }
}

/// The fields of a line: split on comma when the line holds one,
/// otherwise on tab.
pub open spec fn line_fields(line: Seq<char>) -> Seq<Seq<char>> {
    if line.contains(',') {
        split_char(line, ',')
    } else {
        split_char(line, '\t')
    }
}

/// What a line contributes: its cleaned surface form and word class, or
/// nothing when the line is malformed, the form empty, or the tag
/// unclassified.
pub open spec fn line_entry(line: Seq<char>) -> Option<(Seq<char>, WordClass)> {
    let fields = line_fields(line);
    if fields.len() > 7 {
        let w = clean_word(fields[2]);
        if w.len() == 0 {
            None
        } else {
            match classify(fields[6]) {
                Some(c) => Some((w, c)),
                None => None,
            }
        }
    } else {
        None
    }
}

pub open spec fn empty_vocab_view() -> VocabView {
    VocabView {
        nouns: Seq::empty(),
        particles: Seq::empty(),
        verbs: Seq::empty(),
        adverbs: Seq::empty(),
    }
}

pub open spec fn extract_step(acc: VocabView, line: Seq<char>) -> VocabView {
    match line_entry(line) {
        None => acc,
        Some(e) => match e.1 {
            WordClass::Noun => VocabView {
                nouns: add_unique(acc.nouns, e.0),
                particles: acc.particles,
                verbs: acc.verbs,
                adverbs: acc.adverbs,
            },
            WordClass::Particle => VocabView {
                nouns: acc.nouns,
                particles: add_unique(acc.particles, e.0),
                verbs: acc.verbs,
                adverbs: acc.adverbs,
            },
            WordClass::Verb => VocabView {
                nouns: acc.nouns,
                particles: acc.particles,
                verbs: add_unique(acc.verbs, e.0),
                adverbs: acc.adverbs,
            },
            WordClass::Adverb => VocabView {
                nouns: acc.nouns,
                particles: acc.particles,
                verbs: acc.verbs,
                adverbs: add_unique(acc.adverbs, e.0),
            },
        },
    }
}

pub open spec fn extract_acc(lines: Seq<Seq<char>>, acc: VocabView) -> VocabView
    decreases lines.len(),
{
    if lines.len() == 0 {
        acc
    } else {
        extract_acc(lines.drop_first(), extract_step(acc, lines[0]))
    }
}

/// The vocabulary extracted from the lines of a morpheme file: the first
/// line is a header and contributes nothing.
pub open spec fn extract_spec(lines: Seq<Seq<char>>) -> VocabView {
    if lines.len() == 0 {
        empty_vocab_view()
    } else {
        extract_acc(lines.drop_first(), empty_vocab_view())
    }
}

/// True when `v@` holds `c`.
fn has_char(v: &Vec<char>, c: char) -> (r: bool)
    ensures
        r == v@.contains(c),
{
    let n: usize = v.len();
    let mut i: usize = 0;
    while i < n
        invariant
            n == v@.len(),
            0 <= i <= n,
            forall|j: int| 0 <= j < i ==> v@[j] != c,
        decreases n - i,
    {
        if v[i] == c {
            return true;
        }
        i = i + 1;
    }
    false
}

/// Splits `v` on the delimiter `d`.
fn split_on(v: &Vec<char>, d: char) -> (r: Vec<Vec<char>>)
    ensures
        r@.map_values(|f: Vec<char>| f@) == split_char(v@, d),
{
    let n: usize = v.len();
    let mut fields: Vec<Vec<char>> = Vec::new();
    let mut cur: Vec<char> = Vec::new();
    let mut i: usize = 0;
    proof {
        assert(v@.skip(0) =~= v@);
        assert(fields@.map_values(|f: Vec<char>| f@) =~= Seq::<Seq<char>>::empty());
        assert(cur@ =~= Seq::<char>::empty());
    }
    while i < n
        invariant
            n == v@.len(),
            0 <= i <= n,
            split_char(v@, d) == split_acc(
                v@.skip(i as int),
                d,
                cur@,
                fields@.map_values(|f: Vec<char>| f@),
            ),
        decreases n - i,
    {
        proof {
            assert(v@.skip(i as int).len() > 0);
            assert(v@.skip(i as int)[0] == v@[i as int]);
            assert(v@.skip(i as int).drop_first() =~= v@.skip(i + 1));
        }
        if v[i] == d {
            let ghost old_fields = fields@.map_values(|f: Vec<char>| f@);
            fields.push(cur);
            cur = Vec::new();
            proof {
                assert(fields@.map_values(|f: Vec<char>| f@) =~= old_fields.push(
                    fields@[fields@.len() - 1]@,
                ));
                assert(cur@ =~= Seq::<char>::empty());
            }
        } else {
            let c: char = v[i];
            cur.push(c);
        }
        i = i + 1;
    }
    proof {
        assert(v@.skip(n as int).len() == 0);
    }
    let ghost old_fields = fields@.map_values(|f: Vec<char>| f@);
    fields.push(cur);
    proof {
        assert(fields@.map_values(|f: Vec<char>| f@) =~= old_fields.push(
            fields@[fields@.len() - 1]@,
        ));
    }
    fields
}

/// Trims whitespace, then surrounding quotes, returning the clean word.
fn trim_and_strip(v: &Vec<char>) -> (r: Vec<char>)
    ensures
        r@ == clean_word(v@),
{
    let n: usize = v.len();
    let mut lo: usize = 0;
    let mut hi: usize = n;
    proof {
        assert(v@.skip(0) =~= v@);
    }
    while lo < hi && (v[lo] == ' ' || v[lo] == '\t' || v[lo] == '\r' || v[lo] == '\n')
        invariant
            n == v@.len(),
            hi == n,
            0 <= lo <= hi,
            trim_leading(v@) == trim_leading(v@.skip(lo as int)),
        decreases hi - lo,
    {
        proof {
            assert(v@.skip(lo as int)[0] == v@[lo as int]);
            assert(v@.skip(lo as int).drop_first() =~= v@.skip(lo + 1));
        }
        lo = lo + 1;
    }
    proof {
        if lo < hi {
            assert(trim_leading(v@) == v@.skip(lo as int));
        } else {
            assert(v@.skip(lo as int).len() == 0);
            assert(trim_leading(v@) == v@.skip(lo as int));
        }
    }
    let ghost s1 = v@.skip(lo as int);
    while hi > lo && (v[hi - 1] == ' ' || v[hi - 1] == '\t' || v[hi - 1] == '\r' || v[hi - 1]
        == '\n')
        invariant
            n == v@.len(),
            0 <= lo <= hi <= n,
            s1 == v@.skip(lo as int),
            trim_trailing(s1) == trim_trailing(v@.subrange(lo as int, hi as int)),
        decreases hi,
    {
        proof {
            let cur = v@.subrange(lo as int, hi as int);
            assert(cur.last() == v@[hi - 1]);
            assert(cur.drop_last() =~= v@.subrange(lo as int, hi - 1));
        }
        hi = hi - 1;
    }
    proof {
        let cur = v@.subrange(lo as int, hi as int);
        if hi > lo {
            assert(trim_trailing(s1) == cur);
        } else {
            assert(cur.len() == 0);
            assert(trim_trailing(s1) == cur);
        }
    }
    let ghost s2 = v@.subrange(lo as int, hi as int);
    while lo < hi && v[lo] == '"'
        invariant
            n == v@.len(),
            0 <= lo <= hi <= n,
            strip_leading_quotes(s2) == strip_leading_quotes(v@.subrange(lo as int, hi as int)),
        decreases hi - lo,
    {
        proof {
            let cur = v@.subrange(lo as int, hi as int);
            assert(cur[0] == v@[lo as int]);
            assert(cur.drop_first() =~= v@.subrange(lo + 1, hi as int));
        }
        lo = lo + 1;
    }
    proof {
        let cur = v@.subrange(lo as int, hi as int);
        if lo < hi {
            assert(strip_leading_quotes(s2) == cur);
        } else {
            assert(cur.len() == 0);
            assert(strip_leading_quotes(s2) == cur);
        }
    }
    let ghost s3 = v@.subrange(lo as int, hi as int);
    while hi > lo && v[hi - 1] == '"'
        invariant
            n == v@.len(),
            0 <= lo <= hi <= n,
            strip_trailing_quotes(s3) == strip_trailing_quotes(v@.subrange(lo as int, hi as int)),
        decreases hi,
    {
        proof {
            let cur = v@.subrange(lo as int, hi as int);
            assert(cur.last() == v@[hi - 1]);
            assert(cur.drop_last() =~= v@.subrange(lo as int, hi - 1));
        }
        hi = hi - 1;
    }
    proof {
        let cur = v@.subrange(lo as int, hi as int);
        if hi > lo {
            assert(strip_trailing_quotes(s3) == cur);
        } else {
            assert(cur.len() == 0);
            assert(strip_trailing_quotes(s3) == cur);
        }
        assert(clean_word(v@) == v@.subrange(lo as int, hi as int));
    }
    let mut r: Vec<char> = Vec::new();
    let mut k: usize = lo;
    while k < hi
        invariant
            n == v@.len(),
            0 <= lo <= k <= hi <= n,
            r@ =~= v@.subrange(lo as int, k as int),
        decreases hi - k,
    {
        let c: char = v[k];
        r.push(c);
        proof {
            assert(r@ =~= v@.subrange(lo as int, k + 1));
        }
        k = k + 1;
    }
    proof {
        assert(r@ =~= clean_word(v@));
    }
    r
}

/// True when `needle@` occurs contiguously in `hay@`.
fn contains_sub(hay: &Vec<char>, needle: &Vec<char>) -> (r: bool)
    ensures
        r == is_substring(needle@, hay@),
{
    let m: usize = needle.len();
    let hn: usize = hay.len();
    if m > hn {
        return false;
    }
    let mut k: usize = 0;
    while k <= hn - m
        invariant
            m == needle@.len(),
            hn == hay@.len(),
            m <= hn,
            0 <= k <= hn - m + 1,
            forall|k2: int|
                0 <= k2 < k ==> #[trigger] hay@.subrange(k2, k2 + m as int) != needle@,
        decreases hn + 1 - k,
    {
        let mut j: usize = 0;
        let mut matches: bool = true;
        while j < m
            invariant
                m == needle@.len(),
                hn == hay@.len(),
                0 <= k <= hn - m,
                0 <= j <= m,
                matches <==> (forall|j2: int| 0 <= j2 < j ==> hay@[k + j2] == #[trigger] needle@[j2]),
            decreases m - j,
        {
            if hay[k + j] != needle[j] {
                matches = false;
                proof {
                    assert(hay@[k + j as int] != needle@[j as int]);
                }
                j = m;
            } else {
                j = j + 1;
            }
        }
        if matches {
            proof {
                assert(hay@.subrange(k as int, k + m as int) =~= needle@);
            }
            return true;
        }
        proof {
            if hay@.subrange(k as int, k + m as int) == needle@ {
                let j2 = choose|j2: int| 0 <= j2 < m && hay@[k + j2] != needle@[j2];
                assert(hay@.subrange(k as int, k + m as int)[j2] == hay@[k + j2]);
            }
        }
        k = k + 1;
    }
    proof {
        assert(forall|k2: int|
            0 <= k2 <= hay@.len() - needle@.len() ==> #[trigger] hay@.subrange(k2, k2 + m as int)
                != needle@);
    }
    false
}

/// Classifies a part-of-speech tag by substring match, in priority order.
fn classify_pos(pos: &Vec<char>) -> (r: Option<WordClass>)
    ensures
        r == classify(pos@),
{
    let noun1 = chars_of("名詞");
    let noun2 = chars_of("代名詞");
    let noun3 = chars_of("接尾辞");
    let particle = chars_of("助詞");
    let verb = chars_of("動詞");
    let adverb = chars_of("副詞");
    if contains_sub(pos, &noun1) || contains_sub(pos, &noun2) || contains_sub(pos, &noun3) {
        Some(WordClass::Noun)
    } else if contains_sub(pos, &particle) {
        Some(WordClass::Particle)
    } else if contains_sub(pos, &verb) {
        Some(WordClass::Verb)
    } else if contains_sub(pos, &adverb) {
        Some(WordClass::Adverb)
    } else {
        None
    }
}

pub struct MorphemeProcessor;

impl MorphemeProcessor {
    /// Extracts vocabulary from the lines of a morpheme file (header line
    /// included; it is skipped). Malformed or unclassified lines are
    /// skipped silently; duplicate surface forms collapse per class.
    pub fn process_lines(lines: &Vec<String>) -> (r: VocabularyData)
        ensures
            r@ == extract_spec(strs_view(lines@)),
    {
        let mut vocab = VocabularyData::empty();
        let n: usize = lines.len();
        proof {
            assert(vocab@ =~= empty_vocab_view());
        }
        if n == 0 {
            proof {
                assert(strs_view(lines@).len() == 0);
            }
            return vocab;
        }
        let ghost all = strs_view(lines@);
        let mut i: usize = 1;
        proof {
            assert(all.drop_first() =~= all.skip(1));
            assert(extract_spec(all) == extract_acc(all.skip(1), empty_vocab_view()));
        }
        while i < n
            invariant
                n == lines@.len(),
                all == strs_view(lines@),
                1 <= i <= n,
                extract_spec(all) == extract_acc(all.skip(i as int), vocab@),
            decreases n - i,
        {
            let ghost pre = vocab@;
            let ghost rem = all.skip(i as int);
            proof {
                assert(rem.len() > 0);
                assert(rem[0] == all[i as int]);
                assert(rem.drop_first() =~= all.skip(i + 1));
                assert(extract_acc(rem, pre) == extract_acc(rem.drop_first(), extract_step(pre, rem[0])));
            }
            let line: Vec<char> = chars_of((&lines[i]).as_str());
            let delim: char = if has_char(&line, ',') {
                ','
            } else {
                '\t'
            };
            let fields: Vec<Vec<char>> = split_on(&line, delim);
            proof {
                assert(fields@.map_values(|f: Vec<char>| f@) == line_fields(all[i as int]));
            }
            if fields.len() > 7 {
                let word: Vec<char> = trim_and_strip(&fields[2]);
                proof {
                    assert(fields@.map_values(|f: Vec<char>| f@)[2] == fields@[2]@);
                    assert(word@ == clean_word(line_fields(all[i as int])[2]));
                }
                if word.len() > 0 {
                    proof {
                        assert(fields@.map_values(|f: Vec<char>| f@)[6] == fields@[6]@);
                    }
                    match classify_pos(&fields[6]) {
                        Some(WordClass::Noun) => {
                            let w: String = string_from_chars(&word);
                            crate::vocab::add_word(&mut vocab.nouns, w);
                        },
                        Some(WordClass::Particle) => {
                            let w: String = string_from_chars(&word);
                            crate::vocab::add_word(&mut vocab.particles, w);
                        },
                        Some(WordClass::Verb) => {
                            let w: String = string_from_chars(&word);
                            crate::vocab::add_word(&mut vocab.verbs, w);
                        },
                        Some(WordClass::Adverb) => {
                            let w: String = string_from_chars(&word);
                            crate::vocab::add_word(&mut vocab.adverbs, w);
                        },
                        None => {},
                    }
                }
            }
            proof {
                assert(vocab@ == extract_step(pre, all[i as int]));
            }
            i = i + 1;
        }
        proof {
            assert(all.skip(n as int).len() == 0);
        }
        vocab
    }
}

} // verus!
