//! Lightweight query routing for interview-time assistance.
//!
//! The router uses deterministic lexical rules instead of another model call,
//! so the reason for each source choice is visible and reproducible.
use vstd::prelude::*;

use crate::text::{
    lemma_plain_text,
    chars_eq, chars_of, contains, has_char, has_sub, lead, lead_index, lemma_lead_bounds,
    lemma_stop_bounds, lower, lower_chars, slice_of, stop, stop_index, string_of, trim,
    trim_chars, trim_class, trimmed, utf8_len, utf8_len_at_least, is_ascii_lower,
    is_ascii_upper, is_lower_char, is_upper_char, Strip,
};

verus! {

/// Where a question should be answered from.
#[derive(Debug, Clone, Copy, PartialEq, Eq, Structural)]
pub enum QueryRoute {
    Auto,
    QuickAnswer,
    SearchFiles,
    SearchWeb,
    AskCodex,
}

/// A coarse question category used to explain routing decisions.
#[derive(Debug, Clone, Copy, PartialEq, Eq, Structural)]
pub enum QuestionType {
    Personal,
    Project,
    Research,
    Course,
    Algorithm,
    Math,
    Professor,
    Latest,
    UnknownTerm,
    FollowUp,
    Unknown,
}

/// User-visible explanation attached to one generated answer.
#[derive(Debug, Clone)]
pub struct RouteDecision {
    pub route: QueryRoute,
    pub question_type: QuestionType,
    pub answer_source: String,
    pub confidence: String,
}

/// The route named by an already trimmed, lower-cased value.
pub open spec fn route_named(s: Seq<char>) -> QueryRoute {
    if s == "quick_answer"@ || s == "quick"@ || s == "direct"@ {
        QueryRoute::QuickAnswer
    } else if s == "search_files"@ || s == "files"@ || s == "local_rag"@ || s == "rag"@ {
        QueryRoute::SearchFiles
    } else if s == "search_web"@ || s == "web"@ || s == "latest"@ {
        QueryRoute::SearchWeb
    } else if s == "ask_codex"@ || s == "codex"@ || s == "ask"@ {
        QueryRoute::AskCodex
    } else {
        QueryRoute::Auto
    }
}

/// What `QueryRoute::parse` returns: a missing value means `auto`; any other
/// value is trimmed and ASCII-lower-cased before it is matched.
pub open spec fn parse_route(value: Option<Seq<char>>) -> QueryRoute {
    match value {
        Some(v) => route_named(lower(trim(v))),
        None => QueryRoute::Auto,
    }
}

pub open spec fn route_name(r: QueryRoute) -> Seq<char> {
    match r {
        QueryRoute::Auto => "auto"@,
        QueryRoute::QuickAnswer => "quick_answer"@,
        QueryRoute::SearchFiles => "search_files"@,
        QueryRoute::SearchWeb => "search_web"@,
        QueryRoute::AskCodex => "ask_codex"@,
    }
}

pub open spec fn question_type_name(t: QuestionType) -> Seq<char> {
    match t {
        QuestionType::Personal => "personal"@,
        QuestionType::Project => "project"@,
        QuestionType::Research => "research"@,
        QuestionType::Course => "course"@,
        QuestionType::Algorithm => "algorithm"@,
        QuestionType::Math => "math"@,
        QuestionType::Professor => "professor"@,
        QuestionType::Latest => "latest"@,
        QuestionType::UnknownTerm => "unknown_term"@,
        QuestionType::FollowUp => "follow_up"@,
        QuestionType::Unknown => "unknown"@,
    }
}

/// The answer source shown for a route.
pub open spec fn answer_source_of(r: QueryRoute) -> Seq<char> {
    match r {
        QueryRoute::SearchFiles => "local_rag"@,
        QueryRoute::SearchWeb => "web_search"@,
        _ => "codex"@,
    }
}

/// The confidence label shown for a route.
pub open spec fn confidence_of(r: QueryRoute) -> Seq<char> {
    match r {
        QueryRoute::SearchFiles => "high"@,
        QueryRoute::SearchWeb => "web"@,
        _ => "medium"@,
    }
}

/// The views of a list of string slices.
pub open spec fn views(v: Seq<&str>) -> Seq<Seq<char>> {
    v.map_values(|s: &str| s@)
}

/// Some term of `terms` occurs in `text`.
pub open spec fn any_term(text: Seq<char>, terms: Seq<Seq<char>>) -> bool {
    exists|i: int| 0 <= i < terms.len() && has_sub(text, #[trigger] terms[i])
}

/// `text` equals some entry of `terms`.
pub open spec fn one_of(text: Seq<char>, terms: Seq<Seq<char>>) -> bool {
    exists|i: int| 0 <= i < terms.len() && text == #[trigger] terms[i]
}

pub open spec fn personal_terms() -> Seq<Seq<char>> {
    seq![
        "my resume"@, "my cv"@, "my experience"@, "my background"@, "my project"@,
        "my research"@, "my thesis"@, "my work"@, "my skills"@, "my internship"@,
        "我的简历"@, "我的经历"@, "我的背景"@, "我的项目"@, "我的研究"@, "我的论文"@,
        "项目经历"@, "个人经历"@, "实习经历"@, "工作经历"@, "个人背景"@,
    ]
}

pub open spec fn professor_terms() -> Seq<Seq<char>> {
    seq!["professor"@, "advisor"@, "supervisor"@, "pi "@, "lab "@, "导师"@, "教授"@, "课题组"@]
}

pub open spec fn latest_terms() -> Seq<Seq<char>> {
    seq![
        "latest"@, "newest"@, "current"@, "recent"@, "today"@, "this year"@, "news"@,
        "price"@, "deadline"@, "最新"@, "最近"@, "当前"@, "现在"@, "新闻"@, "价格"@,
        "截止时间"@, "政策"@,
    ]
}

pub open spec fn research_terms() -> Seq<Seq<char>> {
    seq![
        "research"@, "paper"@, "thesis"@, "experiment"@, "dataset"@, "publication"@,
        "methodology"@, "研究"@, "论文"@, "实验"@, "数据集"@, "发表"@, "方法论"@, "科研"@,
    ]
}

pub open spec fn course_terms() -> Seq<Seq<char>> {
    seq![
        "course"@, "class"@, "exam"@, "operating system"@, "computer network"@, "database"@,
        "machine learning"@, "课程"@, "专业课"@, "考试"@, "操作系统"@, "计算机网络"@,
        "数据库"@, "机器学习"@, "深度学习"@,
    ]
}

pub open spec fn project_terms() -> Seq<Seq<char>> {
    seq![
        "project"@, "repository"@, "repo"@, "codebase"@, "architecture"@, "implementation"@,
        "resume bullet"@, "项目"@, "仓库"@, "代码库"@, "架构"@, "实现"@, "方案"@, "简历项目"@,
    ]
}

pub open spec fn algorithm_terms() -> Seq<Seq<char>> {
    seq![
        "algorithm"@, "complexity"@, "big o"@, "dynamic programming"@, "binary search"@,
        "graph"@, "算法"@, "复杂度"@, "动态规划"@, "二分"@, "图论"@,
    ]
}

pub open spec fn math_terms() -> Seq<Seq<char>> {
    seq![
        "equation"@, "derivative"@, "integral"@, "probability"@, "statistics"@, "matrix"@,
        "equation"@, "方程"@, "导数"@, "积分"@, "概率"@, "统计"@, "矩阵"@,
    ]
}

/// Lead-ins that make a question ask for a definition.
pub open spec fn definition_hints() -> Seq<Seq<char>> {
    seq![
        "what is "@, "what are "@, "what does "@, "what do "@, "who is "@, "meaning of "@,
        "define "@, "是什么"@, "什么意思"@, "谁是"@,
    ]
}

/// Words after which a capitalised word counts as a proper noun.
pub open spec fn definition_words() -> Seq<Seq<char>> {
    seq!["is"@, "are"@, "does"@, "do"@, "of"@, "define"@, "who"@]
}

/// No ASCII lower-case letter occurs in `w`.
pub open spec fn no_lower(w: Seq<char>) -> bool {
    forall|k: int| 0 <= k < w.len() ==> !is_ascii_lower(#[trigger] w[k])
}

/// Some maximal run of ASCII letters and digits starting at or after `p`
/// has at least two characters and no lower-case letter (an acronym).
pub open spec fn acronym_from(s: Seq<char>, p: int) -> bool
    decreases s.len() - p,
{
    if p < 0 || p >= s.len() {
        false
    } else {
        let a = lead(s, Strip::NonAlnum, p);
        if a >= s.len() {
            false
        } else {
            let b = stop(s, Strip::NonAlnum, a);
            proof {
                lemma_lead_bounds(s, Strip::NonAlnum, p);
                lemma_stop_bounds(s, Strip::NonAlnum, a + 1);
            }
            if b - a >= 2 && no_lower(s.subrange(a, b)) {
                true
            } else {
                acronym_from(s, b)
            }
        }
    }
}

/// Walks the whitespace-separated words from `p`: once a definition word has
/// been seen (`saw`), a following word that, stripped of non-letters at both
/// ends, has at least three bytes and an upper-case first letter is a name.
pub open spec fn capitalized_from(s: Seq<char>, p: int, saw: bool) -> bool
    decreases s.len() - p,
{
    if p < 0 || p >= s.len() {
        false
    } else {
        let a = lead(s, Strip::Space, p);
        if a >= s.len() {
            false
        } else {
            let b = stop(s, Strip::Space, a);
            proof {
                lemma_lead_bounds(s, Strip::Space, p);
                lemma_stop_bounds(s, Strip::Space, a + 1);
            }
            let w = trim_class(s.subrange(a, b), Strip::NonAlpha);
            if !saw {
                capitalized_from(s, b, one_of(lower(w), definition_words()))
            } else if utf8_len(w) >= 3 && w.len() > 0 && is_ascii_upper(w[0]) {
                true
            } else {
                capitalized_from(s, b, true)
            }
        }
    }
}

/// A definition-style question that names a quoted phrase, an acronym, or a
/// capitalised name.
pub open spec fn unknown_term_spec(question: Seq<char>) -> bool {
    let text = trim(question);
    if !any_term(lower(text), definition_hints()) {
        false
    } else if text.contains('"') || text.contains('\'') || text.contains('“') || text.contains(
        '”',
    ) {
        true
    } else if acronym_from(text, 0) {
        true
    } else {
        capitalized_from(text, 0, false)
    }
}

/// What `classify_question` returns: the first category in a fixed order
/// whose terms occur in the trimmed, ASCII-lower-cased question.
pub open spec fn classify_spec(mode: Seq<char>, question: Seq<char>) -> QuestionType {
    let text = lower(trim(question));
    if mode == "FollowUp"@ {
        QuestionType::FollowUp
    } else if any_term(text, personal_terms()) {
        QuestionType::Personal
    } else if any_term(text, professor_terms()) {
        QuestionType::Professor
    } else if any_term(text, latest_terms()) {
        QuestionType::Latest
    } else if any_term(text, research_terms()) {
        QuestionType::Research
    } else if any_term(text, course_terms()) {
        QuestionType::Course
    } else if any_term(text, project_terms()) {
        QuestionType::Project
    } else if any_term(text, algorithm_terms()) {
        QuestionType::Algorithm
    } else if any_term(text, math_terms()) {
        QuestionType::Math
    } else if unknown_term_spec(question) {
        QuestionType::UnknownTerm
    } else {
        QuestionType::Unknown
    }
}

/// The route `auto` picks for a question category and action mode.
pub open spec fn auto_route(question_type: QuestionType, mode: Seq<char>) -> QueryRoute {
    match question_type {
        QuestionType::Personal | QuestionType::Project | QuestionType::Research
        | QuestionType::Course => QueryRoute::SearchFiles,
        QuestionType::Professor | QuestionType::Latest | QuestionType::UnknownTerm =>
            QueryRoute::SearchWeb,
        QuestionType::FollowUp | QuestionType::Algorithm | QuestionType::Math =>
            QueryRoute::QuickAnswer,
        QuestionType::Unknown => if mode == "AskQuestion"@ {
            QueryRoute::AskCodex
        } else {
            QueryRoute::QuickAnswer
        },
    }
}

/// The route that `resolve_route` picks: an explicit route wins.
pub open spec fn resolved_route(override_route: Option<Seq<char>>, mode: Seq<char>, question: Seq<char>) -> QueryRoute {
    let requested = parse_route(override_route);
    if requested != QueryRoute::Auto {
        requested
    } else {
        auto_route(classify_spec(mode, question), mode)
    }
}

/// Parsing the canonical name of a route gives the route back.
pub proof fn law_route_name_roundtrip(r: QueryRoute)
    ensures
        parse_route(Some(route_name(r))) == r,
{
    reveal_strlit("auto");
    reveal_strlit("quick_answer");
    reveal_strlit("quick");
    reveal_strlit("direct");
    reveal_strlit("search_files");
    reveal_strlit("files");
    reveal_strlit("local_rag");
    reveal_strlit("rag");
    reveal_strlit("search_web");
    reveal_strlit("web");
    reveal_strlit("latest");
    reveal_strlit("ask_codex");
    reveal_strlit("codex");
    reveal_strlit("ask");
    let n = route_name(r);
    lemma_plain_text(n);
    assert(lower(trim(n)) == n);
}

/// Parsing a value gives the same route as parsing it after trimming and
/// ASCII-lower-casing it first.
pub proof fn law_parse_ignores_case_and_spacing(v: Seq<char>)
    ensures
        parse_route(Some(v)) == parse_route(Some(lower(trim(v)))),
{
    crate::text::lemma_lower_trim_idempotent(v);
}

/// An explicitly requested route always wins over the automatic choice.
pub proof fn law_explicit_route_wins(requested: Seq<char>, mode: Seq<char>, question: Seq<char>)
    requires
        parse_route(Some(requested)) != QueryRoute::Auto,
    ensures
        resolved_route(Some(requested), mode, question) == parse_route(Some(requested)),
{
}

/// With no explicit route, the category of the question decides where the
/// answer comes from: questions about the candidate's own background,
/// projects, research or courses are answered from the local knowledge base
/// with high confidence; questions about a professor, recent events or an
/// unknown term go to the web; follow-ups, algorithms and maths get a quick
/// answer; anything else is asked of Codex in `AskQuestion` mode and
/// answered quickly otherwise.
pub proof fn law_automatic_routing(override_route: Option<Seq<char>>, mode: Seq<char>, question: Seq<char>)
    requires
        parse_route(override_route) == QueryRoute::Auto,
    ensures
        ({
            let t = classify_spec(mode, question);
            let r = resolved_route(override_route, mode, question);
            &&& (t == QuestionType::Personal || t == QuestionType::Project || t
                == QuestionType::Research || t == QuestionType::Course) ==> r
                == QueryRoute::SearchFiles && answer_source_of(r) == "local_rag"@ && confidence_of(r)
                == "high"@
            &&& (t == QuestionType::Professor || t == QuestionType::Latest || t
                == QuestionType::UnknownTerm) ==> r == QueryRoute::SearchWeb && answer_source_of(r)
                == "web_search"@ && confidence_of(r) == "web"@
            &&& (t == QuestionType::FollowUp || t == QuestionType::Algorithm || t
                == QuestionType::Math) ==> r == QueryRoute::QuickAnswer && answer_source_of(r)
                == "codex"@ && confidence_of(r) == "medium"@
            &&& t == QuestionType::Unknown ==> r == (if mode == "AskQuestion"@ {
                QueryRoute::AskCodex
            } else {
                QueryRoute::QuickAnswer
            }) && answer_source_of(r) == "codex"@ && confidence_of(r) == "medium"@
        }),
{
}

fn str_is(s: &Vec<char>, lit: &str) -> (r: bool)
    ensures
        r == (s@ == lit@),
{
    let l = chars_of(lit);
    chars_eq(s, &l)
}

fn contains_any(text: &Vec<char>, terms: &Vec<&str>) -> (r: bool)
    ensures
        r == any_term(text@, views(terms@)),
{
    let mut i: usize = 0;
    while i < terms.len()
        invariant
            i <= terms.len(),
            forall|j: int| 0 <= j < i ==> !has_sub(text@, #[trigger] views(terms@)[j]),
        decreases terms.len() - i,
    {
        let t = chars_of(terms[i]);
        if contains(text, &t) {
            assert(has_sub(text@, views(terms@)[i as int]));
            return true;
        }
        i = i + 1;
    }
    false
}

fn equals_any(text: &Vec<char>, terms: &Vec<&str>) -> (r: bool)
    ensures
        r == one_of(text@, views(terms@)),
{
    let mut i: usize = 0;
    while i < terms.len()
        invariant
            i <= terms.len(),
            forall|j: int| 0 <= j < i ==> text@ != #[trigger] views(terms@)[j],
        decreases terms.len() - i,
    {
        if str_is(text, terms[i]) {
            assert(text@ == views(terms@)[i as int]);
            return true;
        }
        i = i + 1;
    }
    false
}

fn personal_list() -> (v: Vec<&'static str>)
    ensures
        views(v@) == personal_terms(),
{
    let v = vec![
        "my resume", "my cv", "my experience", "my background", "my project", "my research",
        "my thesis", "my work", "my skills", "my internship", "我的简历", "我的经历", "我的背景",
        "我的项目", "我的研究", "我的论文", "项目经历", "个人经历", "实习经历", "工作经历",
        "个人背景",
    ];
    assert(views(v@) =~= personal_terms());
    v
}

fn professor_list() -> (v: Vec<&'static str>)
    ensures
        views(v@) == professor_terms(),
{
    let v = vec!["professor", "advisor", "supervisor", "pi ", "lab ", "导师", "教授", "课题组"];
    assert(views(v@) =~= professor_terms());
    v
}

fn latest_list() -> (v: Vec<&'static str>)
    ensures
        views(v@) == latest_terms(),
{
    let v = vec![
        "latest", "newest", "current", "recent", "today", "this year", "news", "price",
        "deadline", "最新", "最近", "当前", "现在", "新闻", "价格", "截止时间", "政策",
    ];
    assert(views(v@) =~= latest_terms());
    v
}

fn research_list() -> (v: Vec<&'static str>)
    ensures
        views(v@) == research_terms(),
{
    let v = vec![
        "research", "paper", "thesis", "experiment", "dataset", "publication", "methodology",
        "研究", "论文", "实验", "数据集", "发表", "方法论", "科研",
    ];
    assert(views(v@) =~= research_terms());
    v
}

fn course_list() -> (v: Vec<&'static str>)
    ensures
        views(v@) == course_terms(),
{
    let v = vec![
        "course", "class", "exam", "operating system", "computer network", "database",
        "machine learning", "课程", "专业课", "考试", "操作系统", "计算机网络", "数据库",
        "机器学习", "深度学习",
    ];
    assert(views(v@) =~= course_terms());
    v
}

fn project_list() -> (v: Vec<&'static str>)
    ensures
        views(v@) == project_terms(),
{
    let v = vec![
        "project", "repository", "repo", "codebase", "architecture", "implementation",
        "resume bullet", "项目", "仓库", "代码库", "架构", "实现", "方案", "简历项目",
    ];
    assert(views(v@) =~= project_terms());
    v
}

fn algorithm_list() -> (v: Vec<&'static str>)
    ensures
        views(v@) == algorithm_terms(),
{
    let v = vec![
        "algorithm", "complexity", "big o", "dynamic programming", "binary search", "graph",
        "算法", "复杂度", "动态规划", "二分", "图论",
    ];
    assert(views(v@) =~= algorithm_terms());
    v
}

fn math_list() -> (v: Vec<&'static str>)
    ensures
        views(v@) == math_terms(),
{
    let v = vec![
        "equation", "derivative", "integral", "probability", "statistics", "matrix",
        "equation", "方程", "导数", "积分", "概率", "统计", "矩阵",
    ];
    assert(views(v@) =~= math_terms());
    v
}

fn definition_hint_list() -> (v: Vec<&'static str>)
    ensures
        views(v@) == definition_hints(),
{
    let v = vec![
        "what is ", "what are ", "what does ", "what do ", "who is ", "meaning of ", "define ",
        "是什么", "什么意思", "谁是",
    ];
    assert(views(v@) =~= definition_hints());
    v
}

fn definition_word_list() -> (v: Vec<&'static str>)
    ensures
        views(v@) == definition_words(),
{
    let v = vec!["is", "are", "does", "do", "of", "define", "who"];
    assert(views(v@) =~= definition_words());
    v
}

fn has_no_lower(s: &Vec<char>, a: usize, b: usize) -> (r: bool)
    requires
        a <= b <= s.len(),
    ensures
        r == no_lower(s@.subrange(a as int, b as int)),
{
    let mut i = a;
    while i < b
        invariant
            a <= i <= b <= s.len(),
            forall|k: int| a <= k < i ==> !is_ascii_lower(#[trigger] s@[k]),
        decreases b - i,
    {
        if is_lower_char(s[i]) {
            assert(s@.subrange(a as int, b as int)[i - a] == s@[i as int]);
            return false;
        }
        i = i + 1;
    }
    assert forall|k: int| 0 <= k < b - a implies !is_ascii_lower(
        #[trigger] s@.subrange(a as int, b as int)[k],
    ) by {
        assert(s@.subrange(a as int, b as int)[k] == s@[a + k]);
    }
    true
}

fn acronym_like(s: &Vec<char>) -> (r: bool)
    ensures
        r == acronym_from(s@, 0),
{
    let mut p: usize = 0;
    while p < s.len()
        invariant
            p <= s.len(),
            acronym_from(s@, p as int) == acronym_from(s@, 0),
        decreases s.len() - p,
    {
        let a = lead_index(s, Strip::NonAlnum, p);
        proof {
            lemma_lead_bounds(s@, Strip::NonAlnum, p as int);
        }
        if a >= s.len() {
            return false;
        }
        let b = stop_index(s, Strip::NonAlnum, a);
        proof {
            lemma_stop_bounds(s@, Strip::NonAlnum, a as int);
            lemma_stop_bounds(s@, Strip::NonAlnum, a + 1);
        }
        if b - a >= 2 && has_no_lower(s, a, b) {
            return true;
        }
        p = b;
    }
    false
}

fn capitalized_name(s: &Vec<char>) -> (r: bool)
    ensures
        r == capitalized_from(s@, 0, false),
{
    let words = definition_word_list();
    let mut p: usize = 0;
    let mut saw = false;
    while p < s.len()
        invariant
            p <= s.len(),
            views(words@) == definition_words(),
            capitalized_from(s@, p as int, saw) == capitalized_from(s@, 0, false),
        decreases s.len() - p,
    {
        let a = lead_index(s, Strip::Space, p);
        proof {
            lemma_lead_bounds(s@, Strip::Space, p as int);
        }
        if a >= s.len() {
            return false;
        }
        let b = stop_index(s, Strip::Space, a);
        proof {
            lemma_stop_bounds(s@, Strip::Space, a as int);
            lemma_stop_bounds(s@, Strip::Space, a + 1);
        }
        let word = slice_of(s, a, b);
        let w = trimmed(&word, Strip::NonAlpha);
        if !saw {
            let lw = lower_chars(&w);
            saw = equals_any(&lw, &words);
        } else if w.len() > 0 && utf8_len_at_least(&w, 0, w.len(), 3) && is_upper_char(w[0]) {
            proof {
                assert(w@.subrange(0, w@.len() as int) =~= w@);
            }
            return true;
        } else {
            proof {
                assert(w@.subrange(0, w@.len() as int) =~= w@);
            }
        }
        p = b;
    }
    false
}

/// Detects a likely unknown proper noun without another classifier request:
/// a definition-style question with a quoted phrase, an acronym, or a
/// capitalised name after the lead-in.
fn looks_like_unknown_term(question: &str) -> (r: bool)
    ensures
        r == unknown_term_spec(question@),
{
    let q = chars_of(question);
    let text = trim_chars(&q);
    let low = lower_chars(&text);
    let hints = definition_hint_list();
    if !contains_any(&low, &hints) {
        return false;
    }
    if has_char(&text, '"') || has_char(&text, '\'') || has_char(&text, '“') || has_char(
        &text,
        '”',
    ) {
        return true;
    }
    if acronym_like(&text) {
        return true;
    }
    capitalized_name(&text)
}

impl QueryRoute {
    /// Parses a user-facing route name; anything unknown means `Auto`.
    pub fn parse(value: Option<&str>) -> (r: Self)
        ensures
            r == parse_route(
                match value {
                    Some(v) => Some(v@),
                    None => None,
                },
            ),
    {
        match value {
            None => QueryRoute::Auto,
            Some(v) => {
                let c = chars_of(v);
                let t = trim_chars(&c);
                let s = lower_chars(&t);
                if str_is(&s, "quick_answer") || str_is(&s, "quick") || str_is(&s, "direct") {
                    QueryRoute::QuickAnswer
                } else if str_is(&s, "search_files") || str_is(&s, "files") || str_is(
                    &s,
                    "local_rag",
                ) || str_is(&s, "rag") {
                    QueryRoute::SearchFiles
                } else if str_is(&s, "search_web") || str_is(&s, "web") || str_is(&s, "latest") {
                    QueryRoute::SearchWeb
                } else if str_is(&s, "ask_codex") || str_is(&s, "codex") || str_is(&s, "ask") {
                    QueryRoute::AskCodex
                } else {
                    QueryRoute::Auto
                }
            },
        }
    }

    /// The canonical name of the route.
    pub fn as_str(self) -> (r: &'static str)
        ensures
            r@ == route_name(self),
    {
        match self {
            QueryRoute::Auto => "auto",
            QueryRoute::QuickAnswer => "quick_answer",
            QueryRoute::SearchFiles => "search_files",
            QueryRoute::SearchWeb => "search_web",
            QueryRoute::AskCodex => "ask_codex",
        }
    }
}

impl QuestionType {
    /// The canonical name of the category.
    pub fn as_str(self) -> (r: &'static str)
        ensures
            r@ == question_type_name(self),
    {
        match self {
            QuestionType::Personal => "personal",
            QuestionType::Project => "project",
            QuestionType::Research => "research",
            QuestionType::Course => "course",
            QuestionType::Algorithm => "algorithm",
            QuestionType::Math => "math",
            QuestionType::Professor => "professor",
            QuestionType::Latest => "latest",
            QuestionType::UnknownTerm => "unknown_term",
            QuestionType::FollowUp => "follow_up",
            QuestionType::Unknown => "unknown",
        }
    }
}

impl RouteDecision {
    fn for_route(route: QueryRoute, question_type: QuestionType) -> (r: Self)
        ensures
            r.route == route,
            r.question_type == question_type,
            r.answer_source@ == answer_source_of(route),
            r.confidence@ == confidence_of(route),
    {
        let (answer_source, confidence) = match route {
            QueryRoute::SearchFiles => ("local_rag", "high"),
            QueryRoute::SearchWeb => ("web_search", "web"),
            QueryRoute::QuickAnswer | QueryRoute::AskCodex => ("codex", "medium"),
            QueryRoute::Auto => ("codex", "medium"),
        };
        RouteDecision {
            route,
            question_type,
            answer_source: string_of(&chars_of(answer_source)),
            confidence: string_of(&chars_of(confidence)),
        }
    }
}

/// Classifies the question using stable, low-latency lexical rules.
pub fn classify_question(mode: &str, question: &str) -> (r: QuestionType)
    ensures
        r == classify_spec(mode@, question@),
{
    let q = chars_of(question);
    let t = trim_chars(&q);
    let text = lower_chars(&t);
    let m = chars_of(mode);
    if str_is(&m, "FollowUp") {
        return QuestionType::FollowUp;
    }
    if contains_any(&text, &personal_list()) {
        return QuestionType::Personal;
    }
    if contains_any(&text, &professor_list()) {
        return QuestionType::Professor;
    }
    if contains_any(&text, &latest_list()) {
        return QuestionType::Latest;
    }
    if contains_any(&text, &research_list()) {
        return QuestionType::Research;
    }
    if contains_any(&text, &course_list()) {
        return QuestionType::Course;
    }
    if contains_any(&text, &project_list()) {
        return QuestionType::Project;
    }
    if contains_any(&text, &algorithm_list()) {
        return QuestionType::Algorithm;
    }
    if contains_any(&text, &math_list()) {
        return QuestionType::Math;
    }
    if looks_like_unknown_term(question) {
        return QuestionType::UnknownTerm;
    }
    QuestionType::Unknown
}

/// Resolves the route. An explicit route always wins; `auto` uses the
/// question category and the current action mode.
pub fn resolve_route(override_route: Option<&str>, mode: &str, question: &str) -> (r:
    RouteDecision)
    ensures
        r.question_type == classify_spec(mode@, question@),
        r.route == resolved_route(
            match override_route {
                Some(v) => Some(v@),
                None => None,
            },
            mode@,
            question@,
        ),
        r.answer_source@ == answer_source_of(r.route),
        r.confidence@ == confidence_of(r.route),
{
    let question_type = classify_question(mode, question);
    let requested = QueryRoute::parse(override_route);
    if requested != QueryRoute::Auto {
        return RouteDecision::for_route(requested, question_type);
    }
    let m = chars_of(mode);
    let route = match question_type {
        QuestionType::Personal | QuestionType::Project | QuestionType::Research
        | QuestionType::Course => QueryRoute::SearchFiles,
        QuestionType::Professor | QuestionType::Latest | QuestionType::UnknownTerm =>
            QueryRoute::SearchWeb,
        QuestionType::FollowUp => QueryRoute::QuickAnswer,
        QuestionType::Algorithm | QuestionType::Math => QueryRoute::QuickAnswer,
        QuestionType::Unknown => if str_is(&m, "AskQuestion") {
            QueryRoute::AskCodex
        } else {
            QueryRoute::QuickAnswer
        },
    };
    RouteDecision::for_route(route, question_type)
}

} // verus!
