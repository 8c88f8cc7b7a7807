//! Token estimates and the prompt budget breakdown.
use vstd::prelude::*;

use crate::text::{chars_of, contains, has_sub, string_of, to_lowercase, unicode_lower};

verus! {

/// Tokens estimated for `n` characters: one token per four characters,
/// rounded up.
pub open spec fn tokens_for(n: nat) -> nat {
    if n == 0 {
        0
    } else {
        ((n + 3) / 4) as nat
    }
}

/// Approximate token count using the chars/4 heuristic, which roughly
/// matches GPT-style tokenizers.
pub fn count_tokens(text: &str) -> (r: usize)
    ensures
        r == tokens_for(text@.len()),
{
    let chars = chars_of(text);
    let n = chars.len();
    if n == 0 {
        return 0;
    }
    let extra: usize = if n % 4 == 0 {
        0
    } else {
        1
    };
    n / 4 + extra
}

/// A single segment in the token budget breakdown.
#[derive(Debug, Clone)]
pub struct TokenBudgetSegment {
    pub label: String,
    pub tokens: usize,
    pub color: String,
    pub category: String,
}

/// The plain values of one segment: label, tokens, color and category.
pub type SegmentView = (Seq<char>, int, Seq<char>, Seq<char>);

impl View for TokenBudgetSegment {
    type V = SegmentView;

    open spec fn view(&self) -> SegmentView {
        (self.label@, self.tokens as int, self.color@, self.category@)
    }
}

/// The full token budget breakdown.
#[derive(Debug, Clone)]
pub struct TokenBudget {
    /// Estimated tokens sent in the active prompt (instructions + system
    /// overhead + transcript). Indexed resources are retrieved on demand and
    /// are not all sent in one request.
    pub total: usize,
    pub limit: u64,
    /// Total tokens stored in the local knowledge-base index.
    pub indexed_total: usize,
    pub segments: Vec<TokenBudgetSegment>,
}

/// Represents a resource passed into budget computation.
#[derive(Debug, Clone)]
pub struct BudgetResource {
    pub name: String,
    pub file_type: String,
    pub token_count: usize,
}

/// The plain values of one budget resource: name, file type, tokens.
pub type ResourceView = (Seq<char>, Seq<char>, int);

impl View for BudgetResource {
    type V = ResourceView;

    open spec fn view(&self) -> ResourceView {
        (self.name@, self.file_type@, self.token_count as int)
    }
}

pub open spec fn resource_views(rs: Seq<BudgetResource>) -> Seq<ResourceView> {
    rs.map_values(|r: BudgetResource| r@)
}

/// Label, color and category of a resource, chosen from its name (after the
/// Unicode lower-case mapping) and then its file type.
pub open spec fn category_of(name: Seq<char>, file_type: Seq<char>) -> (
    Seq<char>,
    Seq<char>,
    Seq<char>,
) {
    category_from(unicode_lower(name), file_type)
}

/// Label, color and category of a resource from its lower-case name `n`
/// and its file type: resumes, then job descriptions, then notes by type.
pub open spec fn category_from(n: Seq<char>, file_type: Seq<char>) -> (
    Seq<char>,
    Seq<char>,
    Seq<char>,
) {
    if has_sub(n, "resume"@) || has_sub(n, "cv"@) {
        ("Resume"@, "#3b82f6"@, "resume"@)
    } else if has_sub(n, "jd"@) || has_sub(n, "job"@) || has_sub(n, "description"@) || has_sub(
        n,
        "posting"@,
    ) {
        ("JD"@, "#22c55e"@, "jd"@)
    } else if file_type == "pdf"@ {
        ("Notes (PDF)"@, "#a855f7"@, "notes"@)
    } else if file_type == "md"@ {
        ("Notes (MD)"@, "#a855f7"@, "notes"@)
    } else {
        ("Notes"@, "#a855f7"@, "notes"@)
    }
}

/// The segment that shows one indexed resource.
pub open spec fn resource_segment(r: ResourceView) -> SegmentView {
    let (label, color, _category) = category_of(r.0, r.1);
    (label, r.2, color, "indexed"@)
}

/// Estimated tokens of the fixed system prompt.
pub open spec fn system_prompt_tokens() -> int {
    200
}

/// Tokens of the active prompt: instructions, system prompt and transcript.
pub open spec fn active_total(instruction_tokens: int, transcript_tokens: int) -> int {
    instruction_tokens + system_prompt_tokens() + transcript_tokens
}

/// Sum of the resources' token counts.
pub open spec fn indexed_sum(rs: Seq<ResourceView>) -> int
    decreases rs.len(),
{
    if rs.len() == 0 {
        0
    } else {
        indexed_sum(rs.drop_last()) + rs.last().2
    }
}

/// The segments of the breakdown, in order: one per indexed resource, the
/// custom instructions (when non-empty), the system prompt, the transcript
/// (when non-empty), and the remaining headroom (when the limit exceeds the
/// active total).
pub open spec fn budget_segments(
    rs: Seq<ResourceView>,
    instruction_tokens: int,
    transcript_tokens: int,
    limit: int,
) -> Seq<SegmentView> {
    let total = active_total(instruction_tokens, transcript_tokens);
    rs.map_values(|r: ResourceView| resource_segment(r)) + (if instruction_tokens > 0 {
        seq![("Custom Instructions"@, instruction_tokens, "#6b7280"@, "system"@)]
    } else {
        Seq::empty()
    }) + seq![("System Prompt"@, system_prompt_tokens(), "#6b7280"@, "system"@)] + (
    if transcript_tokens > 0 {
        seq![("Transcript"@, transcript_tokens, "#f97316"@, "transcript"@)]
    } else {
        Seq::empty()
    }) + (if limit > total {
        seq![("Available"@, limit - total, "#1f2937"@, "headroom"@)]
    } else {
        Seq::empty()
    })
}

/// The tokens of the segments that are not indexed resources.
pub open spec fn active_tokens(segs: Seq<SegmentView>) -> int
    decreases segs.len(),
{
    if segs.len() == 0 {
        0
    } else {
        active_tokens(segs.drop_last()) + if segs.last().3 == "indexed"@ {
            0
        } else {
            segs.last().1
        }
    }
}

proof fn lemma_active_tokens_concat(a: Seq<SegmentView>, b: Seq<SegmentView>)
    ensures
        active_tokens(a + b) == active_tokens(a) + active_tokens(b),
    decreases b.len(),
{
    if b.len() > 0 {
        lemma_active_tokens_concat(a, b.drop_last());
        assert((a + b).drop_last() =~= a + b.drop_last());
        assert((a + b).last() == b.last());
    } else {
        assert(a + b =~= a);
    }
}

proof fn lemma_indexed_segments(rs: Seq<ResourceView>)
    ensures
        active_tokens(rs.map_values(|r: ResourceView| resource_segment(r))) == 0,
    decreases rs.len(),
{
    if rs.len() > 0 {
        lemma_indexed_segments(rs.drop_last());
        assert(rs.map_values(|r: ResourceView| resource_segment(r)).drop_last()
            =~= rs.drop_last().map_values(|r: ResourceView| resource_segment(r)));
    }
}

/// The segments of the active prompt add up to its total, and with the
/// headroom (when there is any) to the model's limit; indexed resources
/// never count towards either.
pub proof fn law_budget_adds_up(
    rs: Seq<ResourceView>,
    instruction_tokens: int,
    transcript_tokens: int,
    limit: int,
)
    requires
        instruction_tokens >= 0,
        transcript_tokens >= 0,
    ensures
        active_tokens(budget_segments(rs, instruction_tokens, transcript_tokens, limit)) == if limit
            > active_total(instruction_tokens, transcript_tokens) {
            limit
        } else {
            active_total(instruction_tokens, transcript_tokens)
        },
{
    let total = active_total(instruction_tokens, transcript_tokens);
    let idx = rs.map_values(|r: ResourceView| resource_segment(r));
    let ins: Seq<SegmentView> = if instruction_tokens > 0 {
        seq![("Custom Instructions"@, instruction_tokens, "#6b7280"@, "system"@)]
    } else {
        Seq::empty()
    };
    let sys: Seq<SegmentView> = seq![("System Prompt"@, system_prompt_tokens(), "#6b7280"@, "system"@)];
    let tr: Seq<SegmentView> = if transcript_tokens > 0 {
        seq![("Transcript"@, transcript_tokens, "#f97316"@, "transcript"@)]
    } else {
        Seq::empty()
    };
    let av: Seq<SegmentView> = if limit > total {
        seq![("Available"@, limit - total, "#1f2937"@, "headroom"@)]
    } else {
        Seq::empty()
    };
    reveal_strlit("indexed");
    reveal_strlit("system");
    reveal_strlit("transcript");
    reveal_strlit("headroom");
    assert("system"@.len() == 6 && "transcript"@.len() == 10 && "indexed"@.len() == 7);
    assert(active_tokens(Seq::<SegmentView>::empty()) == 0);
    lemma_indexed_segments(rs);
    lemma_active_tokens_concat(idx, ins);
    lemma_active_tokens_concat(idx + ins, sys);
    lemma_active_tokens_concat(idx + ins + sys, tr);
    lemma_active_tokens_concat(idx + ins + sys + tr, av);
    assert(active_tokens(ins) == if instruction_tokens > 0 { instruction_tokens } else { 0 }) by {
        if instruction_tokens > 0 {
            assert(ins.drop_last() =~= Seq::<SegmentView>::empty());
        }
    }
    assert(active_tokens(sys) == system_prompt_tokens()) by {
        assert(sys.drop_last() =~= Seq::<SegmentView>::empty());
    }
    assert(active_tokens(tr) == if transcript_tokens > 0 { transcript_tokens } else { 0 }) by {
        if transcript_tokens > 0 {
            assert(tr.drop_last() =~= Seq::<SegmentView>::empty());
        }
    }
    assert(active_tokens(av) == if limit > total { limit - total } else { 0 }) by {
        if limit > total {
            assert(av.drop_last() =~= Seq::<SegmentView>::empty());
        }
    }
    assert(budget_segments(rs, instruction_tokens, transcript_tokens, limit) == idx + ins + sys + tr
        + av);
}

pub open spec fn segment_views(segments: Seq<TokenBudgetSegment>) -> Seq<SegmentView> {
    segments.map_values(|s: TokenBudgetSegment| s@)
}

fn has(n: &Vec<char>, lit: &str) -> (r: bool)
    ensures
        r == has_sub(n@, lit@),
{
    contains(n, &chars_of(lit))
}

fn is_lit(s: &Vec<char>, lit: &str) -> (r: bool)
    ensures
        r == (s@ == lit@),
{
    crate::text::chars_eq(s, &chars_of(lit))
}

/// Categorizes a resource by its name/type for color assignment.
fn categorize_resource(name: &str, file_type: &str) -> (r: (&'static str, &'static str, &'static str))
    ensures
        (r.0@, r.1@, r.2@) == category_of(name@, file_type@),
{
    let lowered = to_lowercase(name);
    category_for(lowered.as_str(), file_type)
}

/// Label, color and category of a resource whose lower-case name is
/// `lowered_name`.
pub fn category_for(lowered_name: &str, file_type: &str) -> (r: (&'static str, &'static str, &'static str))
    ensures
        (r.0@, r.1@, r.2@) == category_from(lowered_name@, file_type@),
{
    let n = chars_of(lowered_name);
    if has(&n, "resume") || has(&n, "cv") {
        ("Resume", "#3b82f6", "resume")
    } else if has(&n, "jd") || has(&n, "job") || has(&n, "description") || has(&n, "posting") {
        ("JD", "#22c55e", "jd")
    } else {
        let t = chars_of(file_type);
        if is_lit(&t, "pdf") {
            ("Notes (PDF)", "#a855f7", "notes")
        } else if is_lit(&t, "md") {
            ("Notes (MD)", "#a855f7", "notes")
        } else {
            ("Notes", "#a855f7", "notes")
        }
    }
}

fn text_string(lit: &str) -> (r: String)
    ensures
        r@ == lit@,
{
    string_of(&chars_of(lit))
}

fn segment(label: &str, tokens: usize, color: &str, category: &str) -> (r: TokenBudgetSegment)
    ensures
        r@ == (label@, tokens as int, color@, category@),
{
    TokenBudgetSegment {
        label: text_string(label),
        tokens,
        color: text_string(color),
        category: text_string(category),
    }
}

/// Computes the token budget breakdown.
///
/// - `resources`: the loaded context resources
/// - `custom_instructions`: the user's custom instructions text
/// - `transcript_tokens`: estimated tokens used by the current transcript
/// - `model_limit`: the model's context window size in tokens
///
/// Indexed resources are retrieved by relevance and never count toward the
/// active total.
pub fn compute_budget(
    resources: &[BudgetResource],
    custom_instructions: &str,
    transcript_tokens: usize,
    model_limit: u64,
) -> (budget: TokenBudget)
    requires
        indexed_sum(resource_views(resources@)) <= usize::MAX,
        active_total(tokens_for(custom_instructions@.len()) as int, transcript_tokens as int)
            <= usize::MAX,
    ensures
        budget.total == active_total(
            tokens_for(custom_instructions@.len()) as int,
            transcript_tokens as int,
        ),
        budget.limit == model_limit,
        budget.indexed_total == indexed_sum(resource_views(resources@)),
        segment_views(budget.segments@) == budget_segments(
            resource_views(resources@),
            tokens_for(custom_instructions@.len()) as int,
            transcript_tokens as int,
            (model_limit as usize) as int,
        ),
{
    let mut segments: Vec<TokenBudgetSegment> = Vec::new();
    let mut total: usize = 0;
    let mut indexed_total: usize = 0;
    let ghost rs = resource_views(resources@);
    let mut i: usize = 0;
    while i < resources.len()
        invariant
            i <= resources.len(),
            rs == resource_views(resources@),
            indexed_sum(rs) <= usize::MAX,
            indexed_total == indexed_sum(rs.subrange(0, i as int)),
            segment_views(segments@) == rs.subrange(0, i as int).map_values(
                |r: ResourceView| resource_segment(r),
            ),
        decreases resources.len() - i,
    {
        let res = &resources[i];
        let (label, color, _category) = categorize_resource(res.name.as_str(), res.file_type.as_str());
        proof {
            assert(rs.subrange(0, i + 1).drop_last() =~= rs.subrange(0, i as int));
            assert forall|k: int| 0 <= k < rs.len() implies #[trigger] rs[k].2 >= 0 by {
                assert(rs[k] == resources@[k]@);
            }
            lemma_indexed_sum_prefix(rs, i + 1);
        }
        let seg = segment(label, res.token_count, color, "indexed");
        assert(rs[i as int] == resources@[i as int]@);
        assert(seg@ == resource_segment(rs[i as int]));
        let ghost before = segments@;
        segments.push(seg);
        assert(segment_views(segments@) =~= segment_views(before).push(seg@));
        assert(rs.subrange(0, i + 1).map_values(|r: ResourceView| resource_segment(r))
            =~= rs.subrange(0, i as int).map_values(|r: ResourceView| resource_segment(r)).push(
            resource_segment(rs[i as int]),
        ));
        indexed_total = indexed_total + res.token_count;
        i = i + 1;
        assert(segment_views(segments@) =~= rs.subrange(0, i as int).map_values(
            |r: ResourceView| resource_segment(r),
        ));
    }
    assert(rs.subrange(0, resources.len() as int) =~= rs);

    let instructions_tokens = count_tokens(custom_instructions);
    if instructions_tokens > 0 {
        segments.push(segment("Custom Instructions", instructions_tokens, "#6b7280", "system"));
        total = total + instructions_tokens;
    }
    let system_prompt_tokens: usize = 200;
    segments.push(segment("System Prompt", system_prompt_tokens, "#6b7280", "system"));
    total = total + system_prompt_tokens;
    if transcript_tokens > 0 {
        segments.push(segment("Transcript", transcript_tokens, "#f97316", "transcript"));
        total = total + transcript_tokens;
    }
    let limit = model_limit;
    let limit_tokens = #[verifier::truncate] (limit as usize);
    if limit_tokens > total {
        let headroom = limit_tokens - total;
        segments.push(segment("Available", headroom, "#1f2937", "headroom"));
    }
    assert(segment_views(segments@) =~= budget_segments(
        rs,
        instructions_tokens as int,
        transcript_tokens as int,
        limit_tokens as int,
    ));
    TokenBudget { total, limit, indexed_total, segments }
}

proof fn lemma_indexed_sum_prefix(rs: Seq<ResourceView>, n: int)
    requires
        0 <= n <= rs.len(),
        forall|k: int| 0 <= k < rs.len() ==> #[trigger] rs[k].2 >= 0,
    ensures
        indexed_sum(rs.subrange(0, n)) <= indexed_sum(rs),
    decreases rs.len() - n,
{
    if n < rs.len() {
        lemma_indexed_sum_prefix(rs, n + 1);
        assert(rs.subrange(0, n + 1).drop_last() =~= rs.subrange(0, n));
    } else {
        assert(rs.subrange(0, n) =~= rs);
    }
}

} // verus!
