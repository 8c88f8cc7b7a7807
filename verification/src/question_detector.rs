//! Question detection in transcript text.
//!
//! Layer 1: question marks and interrogative words (English and Chinese).
//! Layer 2: interview-specific contextual patterns.
//!
//! Confidence is kept in hundredths (`95` stands for 0.95).
use vstd::prelude::*;

use crate::query_router::{any_term, one_of, views};
use crate::text::{
    chars_of, contains, ends_with_chars, first_word, first_word_of, has_sub, lower, string_of,
    to_lowercase, trim, trim_chars, unicode_lower, utf8_len, utf8_len_at_least, chars_eq,
};

verus! {

/// A detected question from the transcript.
#[derive(Debug, Clone)]
pub struct DetectedQuestion {
    pub text: String,
    /// Confidence in hundredths.
    pub confidence: u32,
    pub timestamp_ms: u64,
    pub source: String,
}

/// The plain values of a detected question: text, confidence, timestamp and
/// source.
pub type QuestionView = (Seq<char>, int, int, Seq<char>);

impl View for DetectedQuestion {
    type V = QuestionView;

    open spec fn view(&self) -> QuestionView {
        (self.text@, self.confidence as int, self.timestamp_ms as int, self.source@)
    }
}

/// Detects questions in transcript text.
pub struct QuestionDetector;

pub open spec fn interrogative_starters() -> Seq<Seq<char>> {
    seq![
        "what"@, "why"@, "how"@, "when"@, "where"@, "who"@, "which"@, "can"@, "could"@,
        "would"@, "should"@, "do"@, "does"@, "is"@, "are"@, "will"@, "have"@, "has"@, "tell"@,
    ]
}

/// Chinese question signals commonly produced by Qwen ASR.
pub open spec fn chinese_question_signals() -> Seq<Seq<char>> {
    seq![
        "什么"@, "为什么"@, "怎么"@, "如何"@, "怎样"@, "哪里"@, "哪儿"@, "哪个"@, "哪些"@,
        "谁"@, "多少"@, "几时"@, "是否"@, "能否"@, "可否"@, "请问"@, "吗"@, "呢"@,
    ]
}

/// Interview-specific patterns that indicate a question or prompt.
pub open spec fn interview_patterns() -> Seq<Seq<char>> {
    seq![
        "walk me through"@, "describe a time"@, "tell me about"@, "what would you do"@,
        "how do you handle"@, "give me an example"@, "explain how"@,
        "what's your experience with"@, "what is your experience with"@,
        "can you walk me through"@, "can you describe"@, "can you explain"@,
        "can you tell me"@, "talk about a time"@, "share an example"@, "how would you"@,
        "how have you"@, "what approach would you"@, "what's your approach to"@,
        "what is your approach to"@, "请介绍一下"@, "介绍一下"@, "请解释"@, "解释一下"@,
        "谈谈"@, "说说"@, "你会如何"@, "你怎么看"@, "你认为"@, "你能否"@,
    ]
}

pub open spec fn is_terminator(c: char) -> bool {
    c == '.' || c == '?' || c == '!' || c == '。' || c == '？' || c == '！'
}

/// The trimmed, non-empty sentences of `s[start..]`, where the sentence in
/// progress began at `start` and the scan has reached `i`. A sentence ends
/// after one of `. ? ! 。 ？ ！`; the final fragment needs no terminator.
pub open spec fn sentences_from(s: Seq<char>, start: int, i: int) -> Seq<Seq<char>>
    decreases s.len() - i,
{
    if i < start || start < 0 || i > s.len() {
        Seq::empty()
    } else if i == s.len() {
        let piece = trim(s.subrange(start, i));
        if piece.len() > 0 {
            seq![piece]
        } else {
            Seq::empty()
        }
    } else if is_terminator(s[i]) {
        let piece = trim(s.subrange(start, i + 1));
        if piece.len() > 0 {
            seq![piece] + sentences_from(s, i + 1, i + 1)
        } else {
            sentences_from(s, i + 1, i + 1)
        }
    } else {
        sentences_from(s, start, i + 1)
    }
}

/// The sentences that `split_sentences` yields.
pub open spec fn sentences(s: Seq<char>) -> Seq<Seq<char>> {
    sentences_from(s, 0, 0)
}

pub open spec fn max_conf(a: int, b: int) -> int {
    if a >= b {
        a
    } else {
        b
    }
}

/// Confidence (in hundredths) that the trimmed sentence `t` is a question.
pub open spec fn confidence_of(t: Seq<char>) -> int {
    confidence_from(t, unicode_lower(t))
}

/// Confidence (in hundredths) that the trimmed sentence `t`, whose
/// lower-case form is `low`, is a question: 95 when it ends in a question
/// mark; otherwise 60 when it starts with an interrogative word and 75 when
/// it holds a Chinese question signal; 85 (at least) when it holds an
/// interview pattern.
pub open spec fn confidence_from(t: Seq<char>, low: Seq<char>) -> int {
    let marked = t.len() > 0 && (t.last() == '?' || t.last() == '？');
    let c1: int = if marked {
        95
    } else {
        0
    };
    let c2: int = if c1 < 50 {
        let c: int = if one_of(first_word(low), interrogative_starters()) {
            max_conf(c1, 60)
        } else {
            c1
        };
        if any_term(low, chinese_question_signals()) || (low.len() > 0 && (low.last() == '吗'
            || low.last() == '呢')) {
            max_conf(c, 75)
        } else {
            c
        }
    } else {
        c1
    };
    if any_term(low, interview_patterns()) {
        max_conf(c2, 85)
    } else {
        c2
    }
}

/// A sentence long enough to be considered: at least five bytes once
/// trimmed.
pub open spec fn long_enough(t: Seq<char>) -> bool {
    t.len() > 0 && utf8_len(t) >= 5
}

/// The questions (text and confidence) among `ss`, in order: each sentence
/// is trimmed, and kept when it is long enough and its confidence reaches 50.
pub open spec fn questions_in(ss: Seq<Seq<char>>) -> Seq<(Seq<char>, int)>
    decreases ss.len(),
{
    if ss.len() == 0 {
        Seq::empty()
    } else {
        let t = trim(ss.last());
        questions_in(ss.drop_last()) + if long_enough(t) && confidence_of(t) >= 50 {
            seq![(t, confidence_of(t))]
        } else {
            Seq::empty()
        }
    }
}

/// A sentence ending in a question mark, ASCII or full-width, has
/// confidence 95 hundredths, whatever else it holds.
pub proof fn law_question_mark_is_a_question(t: Seq<char>)
    requires
        t.len() > 0,
        t.last() == '?' || t.last() == '？',
    ensures
        confidence_of(t) == 95,
{
}

/// The confidence of any sentence is one of the four levels (60, 75, 85, 95
/// hundredths) or zero.
pub proof fn law_confidence_levels(t: Seq<char>)
    ensures
        confidence_of(t) == 0 || confidence_of(t) == 60 || confidence_of(t) == 75
            || confidence_of(t) == 85 || confidence_of(t) == 95,
{
}

/// Every reported question is a trimmed, long-enough sentence whose
/// confidence, one of the four levels, reaches 50 hundredths.
pub proof fn law_reported_questions(ss: Seq<Seq<char>>)
    ensures
        forall|i: int|
            0 <= i < questions_in(ss).len() ==> {
                let (t, c) = #[trigger] questions_in(ss)[i];
                &&& long_enough(t)
                &&& t == trim(t)
                &&& c == confidence_of(t)
                &&& (c == 60 || c == 75 || c == 85 || c == 95)
            },
    decreases ss.len(),
{
    if ss.len() > 0 {
        law_reported_questions(ss.drop_last());
        let t = trim(ss.last());
        crate::text::lemma_trim_idempotent(ss.last());
        law_confidence_levels(t);
        let prev = questions_in(ss.drop_last());
        assert forall|i: int| 0 <= i < questions_in(ss).len() implies {
            let (t, c) = #[trigger] questions_in(ss)[i];
            &&& long_enough(t)
            &&& t == trim(t)
            &&& c == confidence_of(t)
            &&& (c == 60 || c == 75 || c == 85 || c == 95)
        } by {
            if i < prev.len() {
                assert(questions_in(ss)[i] == prev[i]);
            }
        }
    }
}

/// Every sentence that, once trimmed, is not empty, holds at least five
/// UTF-8 bytes and reaches a confidence of 50 hundredths is reported, with
/// its trimmed text and its confidence.
pub proof fn law_every_question_is_reported(ss: Seq<Seq<char>>, i: int)
    requires
        0 <= i < ss.len(),
        trim(ss[i]).len() > 0,
        utf8_len(trim(ss[i])) >= 5,
        confidence_of(trim(ss[i])) >= 50,
    ensures
        questions_in(ss).contains((trim(ss[i]), confidence_of(trim(ss[i])))),
    decreases ss.len(),
{
    let x = (trim(ss[i]), confidence_of(trim(ss[i])));
    let prev = questions_in(ss.drop_last());
    if i == ss.len() - 1 {
        assert(questions_in(ss)[prev.len() as int] == x);
    } else {
        assert(ss.drop_last()[i] == ss[i]);
        law_every_question_is_reported(ss.drop_last(), i);
        let k = choose|k: int| 0 <= k < prev.len() && prev[k] == x;
        assert(questions_in(ss)[k] == x);
    }
}

/// A sentence that, once trimmed, ends in a question mark, ASCII or
/// full-width, and holds at least five UTF-8 bytes is always reported, with
/// confidence 95 hundredths.
pub proof fn law_marked_question_is_reported(ss: Seq<Seq<char>>, i: int)
    requires
        0 <= i < ss.len(),
        trim(ss[i]).len() > 0,
        trim(ss[i]).last() == '?' || trim(ss[i]).last() == '？',
        utf8_len(trim(ss[i])) >= 5,
    ensures
        questions_in(ss).contains((trim(ss[i]), 95int)),
{
    law_question_mark_is_a_question(trim(ss[i]));
    law_every_question_is_reported(ss, i);
}

fn is_terminator_char(c: char) -> (r: bool)
    ensures
        r == is_terminator(c),
{
    c == '.' || c == '?' || c == '!' || c == '。' || c == '？' || c == '！'
}

/// Splits text into sentences at common sentence terminators.
fn split_sentences(text: &str) -> (r: Vec<Vec<char>>)
    ensures
        r@.map_values(|v: Vec<char>| v@) == sentences(text@),
{
    let s = chars_of(text);
    let mut out: Vec<Vec<char>> = Vec::new();
    let mut start: usize = 0;
    let mut i: usize = 0;
    while i < s.len()
        invariant
            start <= i <= s.len(),
            out@.map_values(|v: Vec<char>| v@) + sentences_from(s@, start as int, i as int)
                == sentences_from(s@, 0, 0),
        decreases s.len() - i,
    {
        if is_terminator_char(s[i]) {
            let piece_raw = crate::text::slice_of(&s, start, i + 1);
            let piece = trim_chars(&piece_raw);
            let ghost before = out@.map_values(|v: Vec<char>| v@);
            if piece.len() > 0 {
                out.push(piece);
                assert(out@.map_values(|v: Vec<char>| v@) =~= before.push(piece@));
                assert(before + sentences_from(s@, start as int, i as int) =~= out@.map_values(
                    |v: Vec<char>| v@,
                ) + sentences_from(s@, i + 1, i + 1));
            }
            start = i + 1;
        }
        i = i + 1;
    }
    let piece_raw = crate::text::slice_of(&s, start, s.len());
    let piece = trim_chars(&piece_raw);
    let ghost before = out@.map_values(|v: Vec<char>| v@);
    if piece.len() > 0 {
        out.push(piece);
        assert(out@.map_values(|v: Vec<char>| v@) =~= before.push(piece@));
    }
    assert(out@.map_values(|v: Vec<char>| v@) =~= before + sentences_from(
        s@,
        start as int,
        s.len() as int,
    ));
    out
}

fn starter_list() -> (v: Vec<&'static str>)
    ensures
        views(v@) == interrogative_starters(),
{
    let v = vec![
        "what", "why", "how", "when", "where", "who", "which", "can", "could", "would",
        "should", "do", "does", "is", "are", "will", "have", "has", "tell",
    ];
    assert(views(v@) =~= interrogative_starters());
    v
}

fn signal_list() -> (v: Vec<&'static str>)
    ensures
        views(v@) == chinese_question_signals(),
{
    let v = vec![
        "什么", "为什么", "怎么", "如何", "怎样", "哪里", "哪儿", "哪个", "哪些", "谁", "多少",
        "几时", "是否", "能否", "可否", "请问", "吗", "呢",
    ];
    assert(views(v@) =~= chinese_question_signals());
    v
}

fn pattern_list() -> (v: Vec<&'static str>)
    ensures
        views(v@) == interview_patterns(),
{
    let v = vec![
        "walk me through", "describe a time", "tell me about", "what would you do",
        "how do you handle", "give me an example", "explain how", "what's your experience with",
        "what is your experience with", "can you walk me through", "can you describe",
        "can you explain", "can you tell me", "talk about a time", "share an example",
        "how would you", "how have you", "what approach would you", "what's your approach to",
        "what is your approach to", "请介绍一下", "介绍一下", "请解释", "解释一下", "谈谈",
        "说说", "你会如何", "你怎么看", "你认为", "你能否",
    ];
    assert(views(v@) =~= interview_patterns());
    v
}

fn any_of(text: &Vec<char>, terms: &Vec<&str>) -> (r: bool)
    ensures
        r == any_term(text@, views(terms@)),
{
    let mut i: usize = 0;
    while i < terms.len()
        invariant
            i <= terms.len(),
            forall|j: int| 0 <= j < i ==> !has_sub(text@, #[trigger] views(terms@)[j]),
        decreases terms.len() - i,
    {
        if contains(text, &chars_of(terms[i])) {
            assert(has_sub(text@, views(terms@)[i as int]));
            return true;
        }
        i = i + 1;
    }
    false
}

fn equal_to_any(text: &Vec<char>, terms: &Vec<&str>) -> (r: bool)
    ensures
        r == one_of(text@, views(terms@)),
{
    let mut i: usize = 0;
    while i < terms.len()
        invariant
            i <= terms.len(),
            forall|j: int| 0 <= j < i ==> text@ != #[trigger] views(terms@)[j],
        decreases terms.len() - i,
    {
        if chars_eq(text, &chars_of(terms[i])) {
            assert(text@ == views(terms@)[i as int]);
            return true;
        }
        i = i + 1;
    }
    false
}

fn max_u32(a: u32, b: u32) -> (r: u32)
    ensures
        r == max_conf(a as int, b as int),
{
    if a >= b {
        a
    } else {
        b
    }
}

/// Confidence of one trimmed sentence.
fn sentence_confidence(t: &Vec<char>) -> (r: u32)
    ensures
        r == confidence_of(t@),
{
    let lowered = to_lowercase(string_of(t).as_str());
    confidence_for(string_of(t).as_str(), lowered.as_str())
}

/// Confidence (in hundredths) that the trimmed sentence `sentence`, whose
/// lower-case form is `lowered`, is a question.
pub fn confidence_for(sentence: &str, lowered: &str) -> (r: u32)
    ensures
        r == confidence_from(sentence@, lowered@),
{
    let t = chars_of(sentence);
    let low = chars_of(lowered);
    let n = t.len();
    let mut confidence: u32 = if n > 0 && (t[n - 1] == '?' || t[n - 1] == '？') {
        95
    } else {
        0
    };
    if confidence < 50 {
        let word = first_word_of(&low);
        if equal_to_any(&word, &starter_list()) {
            confidence = max_u32(confidence, 60);
        }
        let m = low.len();
        if any_of(&low, &signal_list()) || (m > 0 && (low[m - 1] == '吗' || low[m - 1] == '呢')) {
            confidence = max_u32(confidence, 75);
        }
    }
    if any_of(&low, &pattern_list()) {
        confidence = max_u32(confidence, 85);
    }
    confidence
}

impl QuestionDetector {
    pub fn new() -> (r: Self) {
        QuestionDetector
    }

    /// Detects questions in the given text, with their confidence; only
    /// sentences whose confidence reaches 50 hundredths are returned.
    pub fn detect_questions(&self, text: &str, timestamp_ms: u64, source: &str) -> (r: Vec<
        DetectedQuestion,
    >)
        ensures
            r@.len() == questions_in(sentences(text@)).len(),
            forall|i: int|
                0 <= i < r@.len() ==> (#[trigger] r@[i])@ == (
                    questions_in(sentences(text@))[i].0,
                    questions_in(sentences(text@))[i].1,
                    timestamp_ms as int,
                    source@,
                ),
    {
        let ss = split_sentences(text);
        let ghost sv = ss@.map_values(|v: Vec<char>| v@);
        let mut questions: Vec<DetectedQuestion> = Vec::new();
        let mut i: usize = 0;
        while i < ss.len()
            invariant
                i <= ss@.len(),
                sv == ss@.map_values(|v: Vec<char>| v@),
                sv == sentences(text@),
                questions@.len() == questions_in(sv.subrange(0, i as int)).len(),
                forall|k: int|
                    0 <= k < questions@.len() ==> (#[trigger] questions@[k])@ == (
                        questions_in(sv.subrange(0, i as int))[k].0,
                        questions_in(sv.subrange(0, i as int))[k].1,
                        timestamp_ms as int,
                        source@,
                    ),
            decreases ss.len() - i,
        {
            let trimmed = trim_chars(&ss[i]);
            proof {
                assert(sv.subrange(0, i + 1).drop_last() =~= sv.subrange(0, i as int));
                assert(sv.subrange(0, i + 1).last() == ss@[i as int]@);
            }
            let n = trimmed.len();
            if n > 0 && utf8_len_at_least(&trimmed, 0, n, 5) {
                proof {
                    assert(trimmed@.subrange(0, n as int) =~= trimmed@);
                }
                let confidence = sentence_confidence(&trimmed);
                if confidence >= 50 {
                    let q = DetectedQuestion {
                        text: string_of(&trimmed),
                        confidence,
                        timestamp_ms,
                        source: string_of(&chars_of(source)),
                    };
                    questions.push(q);
                }
            } else {
                proof {
                    if n > 0 {
                        assert(trimmed@.subrange(0, n as int) =~= trimmed@);
                    }
                }
            }
            i = i + 1;
        }
        proof {
            assert(sv.subrange(0, ss@.len() as int) =~= sv);
        }
        questions
    }
}

} // verus!
