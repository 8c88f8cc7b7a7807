//! The knowledge-base context manager: loaded resources, their extracted
//! text, custom instructions, and the context assembled for prompts.
//!
//! Reading, copying and deleting files is done by the caller; this module
//! keeps the state those operations change and decides what they return.
use vstd::prelude::*;

use crate::query_router::{any_term, views};
use crate::text::{
    chars_eq, chars_of, contains, has_sub, join, join_chars, char_views, lower, lower_chars,
    push_all, push_str, string_of, unicode_lower, to_lowercase, utf8_len, utf8_len_at_least,
};
use crate::context_laws::{distinct, lemma_dedup_members, lemma_position_push, lemma_without_keeps};
use crate::token_counter::{
    active_total, compute_budget, count_tokens, indexed_sum, resource_views, tokens_for,
    BudgetResource, TokenBudget,
};

verus! {

/// A loaded context resource.
#[derive(Debug)]
pub struct ContextResource {
    pub id: String,
    pub name: String,
    pub file_type: String,
    pub file_path: String,
    pub size_bytes: u64,
    pub token_count: usize,
    pub preview: String,
    pub loaded_at: String,
    /// Canonical folder selected by the user when this resource was imported.
    /// The folder is metadata only; deletion never removes this source path.
    pub source_folder: String,
}

impl ContextResource {
    /// A copy equal to `self`.
    pub fn duplicate(&self) -> (r: ContextResource)
        ensures
            r == *self,
    {
        ContextResource {
            id: self.id.clone(),
            name: self.name.clone(),
            file_type: self.file_type.clone(),
            file_path: self.file_path.clone(),
            size_bytes: self.size_bytes,
            token_count: self.token_count,
            preview: self.preview.clone(),
            loaded_at: self.loaded_at.clone(),
            source_folder: self.source_folder.clone(),
        }
    }
}

/// The extracted text of one resource.
struct CachedText {
    id: String,
    text: String,
}

/// A file whose type was accepted and that was given an identifier, before
/// its copy and text extraction.
#[derive(Debug)]
pub struct PendingLoad {
    pub id: String,
    pub name: String,
    pub file_type: String,
    /// File name of the app-managed copy: `<id>_<name>`.
    pub managed_name: String,
}

impl PendingLoad {
    /// The pending load of `file_name`, of type `file_type`, under the id
    /// `id`; its copy is named `<id>_<file_name>`.
    pub fn new(id: String, file_name: &str, file_type: String) -> (r: PendingLoad)
        ensures
            r.id == id,
            r.name@ == file_name@,
            r.file_type == file_type,
            r.managed_name@ == id@ + "_"@ + file_name@,
    {
        let mut managed: Vec<char> = chars_of(id.as_str());
        push_str(&mut managed, "_");
        push_str(&mut managed, file_name);
        PendingLoad { id, name: string_of(&chars_of(file_name)), file_type, managed_name: string_of(&managed) }
    }
}

/// Loads, caches, and serves context text from files.
pub struct ContextManager {
    context_dir: String,
    resources: Vec<ContextResource>,
    cache: Vec<CachedText>,
    custom_instructions: String,
}

/// The string that `Uuid::new_v4().to_string()` returns has this shape: 36
/// characters, hyphens at 8, 13, 18 and 23, lower-case hex digits elsewhere.
pub open spec fn is_hyphenated_uuid(s: Seq<char>) -> bool {
    &&& s.len() == 36
    &&& forall|i: int|
        0 <= i < 36 ==> if i == 8 || i == 13 || i == 18 || i == 23 {
            s[i] == '-'
        } else {
            ('0' <= #[trigger] s[i] && s[i] <= '9') || ('a' <= s[i] && s[i] <= 'f')
        }
}

/// Calls `uuid::Uuid::new_v4` and formats the id with `to_string`. The id is
/// random; only its hyphenated lower-case shape, which the crate's formatter
/// fixes, is claimed.
#[verifier::external_body]
fn new_resource_id() -> (r: String)
    ensures
        is_hyphenated_uuid(r@),
{
    uuid::Uuid::new_v4().to_string()
}

/// Calls `chrono::Utc::now` and formats it with `to_rfc3339`; the time read
/// is not described.
#[verifier::external_body]
fn utc_now_rfc3339() -> String {
    chrono::Utc::now().to_rfc3339()
}

/// The file type of an extension, after the Unicode lower-case mapping.
pub open spec fn file_type_of(extension: Seq<char>) -> Option<Seq<char>> {
    file_type_from(unicode_lower(extension))
}

/// The file type named by a lower-case extension, if it is supported.
pub open spec fn file_type_from(e: Seq<char>) -> Option<Seq<char>> {
    if e == "pdf"@ || e == "txt"@ || e == "md"@ || e == "docx"@ {
        Some(e)
    } else {
        None
    }
}

/// The message for an unsupported extension.
pub open spec fn unsupported_message(extension: Seq<char>) -> Seq<char> {
    unsupported_text(unicode_lower(extension))
}

/// The message for an unsupported lower-case extension.
pub open spec fn unsupported_text(e: Seq<char>) -> Seq<char> {
    "Unsupported file type: ."@ + e + ". Supported: .pdf, .txt, .md, .docx"@
}

/// The file type of a lower-case extension, or the message that refuses
/// it.
pub fn supported_file_type(lowered_extension: &str) -> (r: Result<String, String>)
    ensures
        match file_type_from(lowered_extension@) {
            Some(t) => r is Ok && r->Ok_0@ == t,
            None => r is Err && r->Err_0@ == unsupported_text(lowered_extension@),
        },
{
    let e = chars_of(lowered_extension);
    let supported = chars_eq(&e, &chars_of("pdf")) || chars_eq(&e, &chars_of("txt"))
        || chars_eq(&e, &chars_of("md")) || chars_eq(&e, &chars_of("docx"));
    if !supported {
        let mut msg: Vec<char> = Vec::new();
        push_str(&mut msg, "Unsupported file type: .");
        push_all(&mut msg, &e);
        push_str(&mut msg, ". Supported: .pdf, .txt, .md, .docx");
        return Err(string_of(&msg));
    }
    Ok(string_of(&e))
}

/// The preview of extracted text: text of more than 100 bytes is cut to its
/// first 100 characters and marked with `...`.
pub open spec fn preview_of(text: Seq<char>) -> Seq<char> {
    if utf8_len(text) > 100 {
        text.take(if text.len() < 100 {
            text.len() as int
        } else {
            100
        }) + "..."@
    } else {
        text
    }
}

/// Index of the first resource with id `id`, or -1.
pub open spec fn position(rs: Seq<ContextResource>, id: Seq<char>) -> int
    decreases rs.len(),
{
    if rs.len() == 0 {
        -1
    } else if rs[0].id@ == id {
        0
    } else {
        let p = position(rs.drop_first(), id);
        if p < 0 {
            -1
        } else {
            p + 1
        }
    }
}

/// `rs` without its first resource whose id is `id`.
pub open spec fn without(rs: Seq<ContextResource>, id: Seq<char>) -> Seq<ContextResource> {
    let p = position(rs, id);
    if p < 0 {
        rs
    } else {
        rs.remove(p)
    }
}

/// `ids` without repetitions, each kept where it first occurs.
pub open spec fn dedup(ids: Seq<Seq<char>>) -> Seq<Seq<char>>
    decreases ids.len(),
{
    if ids.len() == 0 {
        Seq::empty()
    } else {
        let d = dedup(ids.drop_last());
        if d.contains(ids.last()) {
            d
        } else {
            d.push(ids.last())
        }
    }
}

/// `rs` after removing, in turn, the first resource with each id of `ids`.
pub open spec fn without_all(rs: Seq<ContextResource>, ids: Seq<Seq<char>>) -> Seq<ContextResource>
    decreases ids.len(),
{
    if ids.len() == 0 {
        rs
    } else {
        without(without_all(rs, ids.drop_last()), ids.last())
    }
}

/// The first id of `ids` that no resource of `rs` has, if any.
pub open spec fn first_missing(rs: Seq<ContextResource>, ids: Seq<Seq<char>>) -> Option<Seq<char>>
    decreases ids.len(),
{
    if ids.len() == 0 {
        None
    } else if position(rs, ids[0]) < 0 {
        Some(ids[0])
    } else {
        first_missing(rs, ids.drop_first())
    }
}

/// The first resource of `rs` with each id of `ids`.
pub open spec fn found_all(rs: Seq<ContextResource>, ids: Seq<Seq<char>>) -> Seq<ContextResource> {
    ids.map_values(|id: Seq<char>| rs[position(rs, id)])
}

pub open spec fn string_views(v: Seq<String>) -> Seq<Seq<char>> {
    v.map_values(|s: String| s@)
}

pub open spec fn resource_ids(rs: Seq<ContextResource>) -> Seq<Seq<char>> {
    rs.map_values(|r: ContextResource| r.id@)
}

/// The ids of the resources imported from `folder`, in list order.
pub open spec fn folder_ids(rs: Seq<ContextResource>, folder: Seq<char>) -> Seq<Seq<char>>
    decreases rs.len(),
{
    if rs.len() == 0 {
        Seq::empty()
    } else if rs.last().source_folder@ == folder {
        folder_ids(rs.drop_last(), folder).push(rs.last().id@)
    } else {
        folder_ids(rs.drop_last(), folder)
    }
}

/// The list after restoring `r`: unchanged when its id is already loaded,
/// else with `r` appended.
pub open spec fn restored(rs: Seq<ContextResource>, r: ContextResource) -> Seq<ContextResource> {
    if position(rs, r.id@) >= 0 {
        rs
    } else {
        rs.push(r)
    }
}

pub open spec fn not_found_message(id: Seq<char>) -> Seq<char> {
    "Resource not found: "@ + id
}

/// The outcome of removing the resources with ids `ids` from `rs`: every
/// id (without repetitions) must be present, else nothing changes and the
/// first missing one is reported.
pub open spec fn removal(rs: Seq<ContextResource>, ids: Seq<Seq<char>>) -> Result<
    (Seq<ContextResource>, Seq<ContextResource>),
    Seq<char>,
> {
    let u = dedup(ids);
    match first_missing(rs, u) {
        Some(id) => Err(not_found_message(id)),
        None => Ok((without_all(rs, u), found_all(rs, u))),
    }
}


/// The section of one resource in the assembled context, if its text is
/// cached and non-empty.
pub open spec fn resource_parts(rs: Seq<ContextResource>, cache: Map<Seq<char>, Seq<char>>) -> Seq<
    Seq<char>,
>
    decreases rs.len(),
{
    if rs.len() == 0 {
        Seq::empty()
    } else {
        let r = rs.last();
        resource_parts(rs.drop_last(), cache) + if cache.contains_key(r.id@) && cache[r.id@].len()
            > 0 {
            seq!["## "@ + r.name@ + " ("@ + r.file_type@ + ")\n"@ + cache[r.id@] + "\n"@]
        } else {
            Seq::empty()
        }
    }
}

/// The assembled context: the custom instructions (when present) and then
/// every resource with cached text, joined by newlines.
pub open spec fn assembled(
    instructions: Seq<char>,
    rs: Seq<ContextResource>,
    cache: Map<Seq<char>, Seq<char>>,
) -> Seq<char> {
    join(
        (if instructions.len() > 0 {
            seq!["## Custom Instructions\n"@ + instructions + "\n"@]
        } else {
            Seq::empty()
        }) + resource_parts(rs, cache),
        "\n"@,
    )
}

/// Name fragments that mark a resource as always-relevant profile context.
pub open spec fn hot_terms() -> Seq<Seq<char>> {
    seq![
        "cv"@, "resume"@, "profile"@, "bio"@, "background"@, "motivation"@, "education"@,
        "experience"@, "project"@, "research"@, "introduction"@, "professor"@, "advisor"@,
        "lab"@, "laboratory"@, "教授"@, "导师"@, "简历"@, "背景"@, "经历"@, "动机"@, "教育"@,
        "项目"@, "研究"@, "个人介绍"@,
    ]
}

pub open spec fn is_hot(r: ContextResource) -> bool {
    any_term(lower(r.name@), hot_terms())
}

/// The resources whose names mark them as hot, in order.
pub open spec fn hot_resources(rs: Seq<ContextResource>) -> Seq<ContextResource>
    decreases rs.len(),
{
    if rs.len() == 0 {
        Seq::empty()
    } else if is_hot(rs.last()) {
        hot_resources(rs.drop_last()).push(rs.last())
    } else {
        hot_resources(rs.drop_last())
    }
}

/// The hot resources, or the first resource when none is hot.
pub open spec fn selected_resources(rs: Seq<ContextResource>) -> Seq<ContextResource> {
    if hot_resources(rs).len() == 0 && rs.len() > 0 {
        seq![rs[0]]
    } else {
        hot_resources(rs)
    }
}

pub open spec fn section_header(r: ContextResource) -> Seq<char> {
    "## "@ + r.name@ + " ("@ + r.file_type@ + ")\n"@
}

/// Adds the sections of `sel` to `sections` while `used` characters stay
/// below `max`: each resource with cached, non-empty text gets its header
/// and as much of its text as still fits; the walk stops once a header
/// alone would fill the budget.
pub open spec fn hot_fold(
    sel: Seq<ContextResource>,
    cache: Map<Seq<char>, Seq<char>>,
    max: int,
    sections: Seq<Seq<char>>,
    used: int,
) -> Seq<Seq<char>>
    decreases sel.len(),
{
    if sel.len() == 0 {
        sections
    } else {
        let r = sel[0];
        if !cache.contains_key(r.id@) || cache[r.id@].len() == 0 || used >= max {
            hot_fold(sel.drop_first(), cache, max, sections, used)
        } else {
            let header = section_header(r);
            let remaining = max - (used + header.len());
            if remaining <= 0 {
                sections
            } else {
                let text = cache[r.id@];
                let body = text.take(
                    if remaining < text.len() {
                        remaining
                    } else {
                        text.len() as int
                    },
                );
                hot_fold(
                    sel.drop_first(),
                    cache,
                    max,
                    sections.push(header + body),
                    used + header.len() + body.len(),
                )
            }
        }
    }
}

/// The bounded always-available context: the interview instructions (when
/// asked for and present), then the selected resources, joined by blank
/// lines and kept within `max` characters of section text.
pub open spec fn hot_context(
    max: int,
    include_instructions: bool,
    instructions: Seq<char>,
    rs: Seq<ContextResource>,
    cache: Map<Seq<char>, Seq<char>>,
) -> Seq<char> {
    if max == 0 {
        Seq::empty()
    } else {
        join(hot_sections(max, include_instructions, instructions, rs, cache), "\n\n"@)
    }
}

/// The section of the interview instructions in the hot context.
pub open spec fn instructions_section(instructions: Seq<char>) -> Seq<char> {
    "## Interview Instructions\n"@ + instructions
}

/// The sections of the hot context, before they are joined: the
/// instructions (when asked for and present), then the selected resources.
pub open spec fn hot_sections(
    max: int,
    include_instructions: bool,
    instructions: Seq<char>,
    rs: Seq<ContextResource>,
    cache: Map<Seq<char>, Seq<char>>,
) -> Seq<Seq<char>> {
    let first = instructions_section(instructions);
    let with_instructions = include_instructions && instructions.len() > 0;
    let sections: Seq<Seq<char>> = if with_instructions {
        seq![first]
    } else {
        Seq::empty()
    };
    let used: int = if with_instructions {
        first.len() as int
    } else {
        0
    };
    hot_fold(selected_resources(rs), cache, max, sections, used)
}

/// The number of characters of the sections `ss`.
pub open spec fn section_chars(ss: Seq<Seq<char>>) -> int
    decreases ss.len(),
{
    if ss.len() == 0 {
        0
    } else {
        section_chars(ss.drop_last()) + ss.last().len()
    }
}

/// The budget views of the resources: name, file type and token count.
pub open spec fn budget_views(rs: Seq<ContextResource>) -> Seq<crate::token_counter::ResourceView> {
    rs.map_values(|r: ContextResource| (r.name@, r.file_type@, r.token_count as int))
}

spec fn cache_map(c: Seq<CachedText>) -> Map<Seq<char>, Seq<char>>
    decreases c.len(),
{
    if c.len() == 0 {
        Map::empty()
    } else {
        cache_map(c.drop_last()).insert(c.last().id@, c.last().text@)
    }
}

spec fn unique_cache(c: Seq<CachedText>) -> bool {
    forall|i: int, j: int| 0 <= i < c.len() && 0 <= j < c.len() && i != j ==> c[i].id@ != c[j].id@
}

proof fn lemma_cache_dom(c: Seq<CachedText>, k: Seq<char>)
    ensures
        cache_map(c).contains_key(k) <==> exists|i: int| 0 <= i < c.len() && c[i].id@ == k,
    decreases c.len(),
{
    if c.len() > 0 {
        lemma_cache_dom(c.drop_last(), k);
        if cache_map(c.drop_last()).contains_key(k) {
            let i = choose|i: int| 0 <= i < c.drop_last().len() && c.drop_last()[i].id@ == k;
            assert(c[i].id@ == k);
        }
        if exists|i: int| 0 <= i < c.len() && c[i].id@ == k {
            let i = choose|i: int| 0 <= i < c.len() && c[i].id@ == k;
            if i < c.len() - 1 {
                assert(c.drop_last()[i].id@ == k);
            }
        }
    }
}

proof fn lemma_cache_value(c: Seq<CachedText>, i: int)
    requires
        unique_cache(c),
        0 <= i < c.len(),
    ensures
        cache_map(c).contains_key(c[i].id@),
        cache_map(c)[c[i].id@] == c[i].text@,
    decreases c.len(),
{
    if i < c.len() - 1 {
        assert(unique_cache(c.drop_last()));
        lemma_cache_value(c.drop_last(), i);
        assert(c.drop_last()[i] == c[i]);
    }
}

proof fn lemma_cache_remove(c: Seq<CachedText>, i: int)
    requires
        unique_cache(c),
        0 <= i < c.len(),
    ensures
        cache_map(c.remove(i)) =~= cache_map(c).remove(c[i].id@),
        unique_cache(c.remove(i)),
    decreases c.len(),
{
    let k = c[i].id@;
    if i == c.len() - 1 {
        assert(c.remove(i) =~= c.drop_last());
        lemma_cache_dom(c.drop_last(), k);
    } else {
        assert(unique_cache(c.drop_last()));
        lemma_cache_remove(c.drop_last(), i);
        assert(c.remove(i).drop_last() =~= c.drop_last().remove(i));
        assert(c.remove(i).last() == c.last());
    }
}

pub(crate) proof fn lemma_position(rs: Seq<ContextResource>, id: Seq<char>)
    ensures
        -1 <= position(rs, id) < rs.len(),
        position(rs, id) >= 0 ==> rs[position(rs, id)].id@ == id,
        forall|j: int| 0 <= j < rs.len() && (j < position(rs, id) || position(rs, id) < 0) ==> rs[j].id@ != id,
    decreases rs.len(),
{
    if rs.len() > 0 && rs[0].id@ != id {
        lemma_position(rs.drop_first(), id);
        assert forall|j: int|
            0 <= j < rs.len() && (j < position(rs, id) || position(rs, id) < 0) implies rs[j].id@
            != id by {
            if j > 0 {
                assert(rs[j] == rs.drop_first()[j - 1]);
            }
        }
    }
}

impl ContextManager {
    /// A manager with no resources, storing its copies in `context_dir`.
    pub fn new(context_dir: String) -> (r: Self)
        ensures
            r.wf(),
            r.resources() == Seq::<ContextResource>::empty(),
            r.cached() == Map::<Seq<char>, Seq<char>>::empty(),
            r.instructions() == Seq::<char>::empty(),
            r.context_dir() == context_dir@,
    {
        let r = ContextManager {
            context_dir,
            resources: Vec::new(),
            cache: Vec::new(),
            custom_instructions: String::new(),
        };
        assert(r.cached() =~= Map::<Seq<char>, Seq<char>>::empty());
        r
    }

    /// The internal consistency of the manager: each id has at most one
    /// cached text, and only loaded resources have one.
    pub closed spec fn wf(&self) -> bool {
        &&& unique_cache(self.cache@)
        &&& forall|i: int|
            0 <= i < self.cache@.len() ==> position(self.resources@, #[trigger] self.cache@[i].id@)
                >= 0
    }

    /// Every id with a cached text belongs to a loaded resource.
    pub proof fn lemma_cached_are_loaded(&self, id: Seq<char>)
        requires
            self.wf(),
            self.cached().contains_key(id),
        ensures
            position(self.resources(), id) >= 0,
    {
        lemma_cache_dom(self.cache@, id);
    }

    /// The loaded resources, in load order.
    pub closed spec fn resources(&self) -> Seq<ContextResource> {
        self.resources@
    }

    /// The extracted text of each resource id.
    pub closed spec fn cached(&self) -> Map<Seq<char>, Seq<char>> {
        cache_map(self.cache@)
    }

    pub closed spec fn instructions(&self) -> Seq<char> {
        self.custom_instructions@
    }

    /// The folder of the app-managed copies.
    pub closed spec fn context_dir(&self) -> Seq<char> {
        self.context_dir@
    }

    /// The folder of the app-managed copies.
    pub fn context_dir_path(&self) -> (r: &str)
        ensures
            r@ == self.context_dir(),
    {
        self.context_dir.as_str()
    }

    fn cache_index(&self, id: &String) -> (r: Option<usize>)
        requires
            self.wf(),
        ensures
            match r {
                Some(i) => i < self.cache@.len() && self.cache@[i as int].id@ == id@,
                None => !self.cached().contains_key(id@),
            },
    {
        let mut i: usize = 0;
        while i < self.cache.len()
            invariant
                i <= self.cache@.len(),
                forall|j: int| 0 <= j < i ==> self.cache@[j].id@ != id@,
            decreases self.cache.len() - i,
        {
            if self.cache[i].id == *id {
                return Some(i);
            }
            i = i + 1;
        }
        proof {
            lemma_cache_dom(self.cache@, id@);
        }
        None
    }

    /// Stores `text` as the extracted text of `id`, replacing any earlier one.
    fn cache_insert(&mut self, id: String, text: String)
        requires
            old(self).wf(),
            position(old(self).resources(), id@) >= 0,
        ensures
            final(self).wf(),
            final(self).cached() == old(self).cached().insert(id@, text@),
            final(self).resources() == old(self).resources(),
            final(self).instructions() == old(self).instructions(),
            final(self).context_dir() == old(self).context_dir(),
    {
        let found = self.cache_index(&id);
        if let Some(i) = found {
            proof {
                lemma_cache_remove(self.cache@, i as int);
            }
            self.cache.remove(i);
        }
        let ghost mid = self.cache@;
        proof {
            lemma_cache_dom(mid, id@);
        }
        self.cache.push(CachedText { id, text });
        proof {
            assert(self.cache@.drop_last() =~= mid);
            assert forall|a: int| 0 <= a < self.cache@.len() implies position(
                self.resources@,
                #[trigger] self.cache@[a].id@,
            ) >= 0 by {
                if a < self.cache@.len() - 1 {
                    assert(self.cache@[a] == mid[a]);
                }
            }
            assert forall|a: int, b: int|
                0 <= a < self.cache@.len() && 0 <= b < self.cache@.len() && a != b
                implies self.cache@[a].id@ != self.cache@[b].id@ by {
                if a == self.cache@.len() - 1 {
                    assert(self.cache@[b] == mid[b]);
                } else if b == self.cache@.len() - 1 {
                    assert(self.cache@[a] == mid[a]);
                }
            }
            assert(self.cached() =~= old(self).cached().insert(id@, text@));
        }
    }

    /// Drops the extracted text of `id`, if any.
    fn cache_remove(&mut self, id: &String)
        requires
            old(self).wf(),
        ensures
            final(self).wf(),
            final(self).cached() == old(self).cached().remove(id@),
            final(self).resources() == old(self).resources(),
            final(self).instructions() == old(self).instructions(),
            final(self).context_dir() == old(self).context_dir(),
    {
        let found = self.cache_index(id);
        match found {
            Some(i) => {
                proof {
                    lemma_cache_remove(self.cache@, i as int);
                }
                self.cache.remove(i);
            },
            None => {
                assert(self.cached() =~= old(self).cached().remove(id@));
            },
        }
    }

    /// Accepts a file for loading: checks its type from the extension and
    /// gives it a fresh random id and the name of its app-managed copy.
    pub fn begin_load(&self, file_name: &str, extension: &str) -> (r: Result<PendingLoad, String>)
        ensures
            match file_type_of(extension@) {
                None => r is Err && r->Err_0@ == unsupported_message(extension@),
                Some(t) => r is Ok && r->Ok_0.file_type@ == t && r->Ok_0.name@ == file_name@
                    && is_hyphenated_uuid(r->Ok_0.id@) && r->Ok_0.managed_name@ == r->Ok_0.id@
                    + "_"@ + file_name@,
            },
    {
        let lowered = to_lowercase(extension);
        let file_type = supported_file_type(lowered.as_str())?;
        let id = new_resource_id();
        Ok(PendingLoad::new(id, file_name, file_type))
    }

    /// Registers a loaded file: its app-managed copy at `file_path` of
    /// `size_bytes` bytes, its extracted `text`, and the normalized folder it
    /// was imported from, loaded now. The text is cached and the new
    /// resource appended.
    pub fn load_file(
        &mut self,
        pending: PendingLoad,
        file_path: String,
        size_bytes: u64,
        text: String,
        source_folder: String,
    ) -> (r: ContextResource)
        requires
            old(self).wf(),
        ensures
            final(self).wf(),
            r.id == pending.id,
            r.name == pending.name,
            r.file_type == pending.file_type,
            r.file_path == file_path,
            r.size_bytes == size_bytes,
            r.token_count == tokens_for(text@.len()),
            r.preview@ == preview_of(text@),
            r.source_folder == source_folder,
            final(self).resources() == old(self).resources().push(r),
            final(self).cached() == old(self).cached().insert(pending.id@, text@),
            final(self).instructions() == old(self).instructions(),
            final(self).context_dir() == old(self).context_dir(),
    {
        let loaded_at = utc_now_rfc3339();
        self.load_file_at(pending, file_path, size_bytes, text, source_folder, loaded_at)
    }

    /// Registers a loaded file as `load_file` does, loaded at the RFC 3339
    /// time `loaded_at`.
    pub fn load_file_at(
        &mut self,
        pending: PendingLoad,
        file_path: String,
        size_bytes: u64,
        text: String,
        source_folder: String,
        loaded_at: String,
    ) -> (r: ContextResource)
        requires
            old(self).wf(),
        ensures
            final(self).wf(),
            r.id == pending.id,
            r.name == pending.name,
            r.file_type == pending.file_type,
            r.file_path == file_path,
            r.size_bytes == size_bytes,
            r.token_count == tokens_for(text@.len()),
            r.preview@ == preview_of(text@),
            r.loaded_at == loaded_at,
            r.source_folder == source_folder,
            final(self).resources() == old(self).resources().push(r),
            final(self).cached() == old(self).cached().insert(pending.id@, text@),
            final(self).instructions() == old(self).instructions(),
            final(self).context_dir() == old(self).context_dir(),
    {
        let token_count = count_tokens(text.as_str());
        let preview = make_preview(text.as_str());
        let resource = ContextResource {
            id: pending.id,
            name: pending.name,
            file_type: pending.file_type,
            file_path,
            size_bytes,
            token_count,
            preview,
            loaded_at,
            source_folder,
        };
        let id = resource.id.clone();
        let ghost before = self.resources@;
        self.resources.push(resource.duplicate());
        proof {
            lemma_position_push(before, resource, id@);
            assert forall|a: int| 0 <= a < self.cache@.len() implies position(
                self.resources@,
                #[trigger] self.cache@[a].id@,
            ) >= 0 by {
                lemma_position_push(before, resource, self.cache@[a].id@);
            }
        }
        self.cache_insert(id, text);
        resource
    }

    /// Restores a previously persisted resource with the text re-extracted
    /// from its copy. The text is cached again; the resource is appended only
    /// when no resource with its id is loaded (restoring twice is harmless).
    pub fn restore_resource(&mut self, resource: ContextResource, text: String)
        requires
            old(self).wf(),
        ensures
            final(self).wf(),
            final(self).cached() == old(self).cached().insert(resource.id@, text@),
            final(self).resources() == restored(old(self).resources(), resource),
            final(self).instructions() == old(self).instructions(),
            final(self).context_dir() == old(self).context_dir(),
    {
        let id = resource.id.clone();
        let idx = self.index_of(&resource.id);
        if idx.is_none() {
            let ghost before = self.resources@;
            self.resources.push(resource);
            proof {
                lemma_position_push(before, resource, id@);
                assert forall|a: int| 0 <= a < self.cache@.len() implies position(
                    self.resources@,
                    #[trigger] self.cache@[a].id@,
                ) >= 0 by {
                    lemma_position_push(before, resource, self.cache@[a].id@);
                }
            }
        }
        self.cache_insert(id, text);
    }

    fn index_of(&self, id: &String) -> (r: Option<usize>)
        ensures
            match r {
                Some(i) => i < self.resources@.len() && i as int == position(self.resources@, id@),
                None => position(self.resources@, id@) < 0,
            },
    {
        proof {
            lemma_position(self.resources@, id@);
        }
        let mut i: usize = 0;
        while i < self.resources.len()
            invariant
                i <= self.resources@.len(),
                forall|j: int| 0 <= j < i ==> self.resources@[j].id@ != id@,
                -1 <= position(self.resources@, id@) < self.resources@.len(),
                position(self.resources@, id@) >= 0 ==> self.resources@[position(
                    self.resources@,
                    id@,
                )].id@ == id@,
                forall|j: int|
                    0 <= j < self.resources@.len() && (j < position(self.resources@, id@)
                        || position(self.resources@, id@) < 0) ==> self.resources@[j].id@ != id@,
            decreases self.resources.len() - i,
        {
            if self.resources[i].id == *id {
                return Some(i);
            }
            i = i + 1;
        }
        None
    }

    /// Removes the resource with id `resource_id` and its cached text, and
    /// returns it so its app-managed copy can be deleted.
    pub fn remove_file(&mut self, resource_id: &str) -> (r: Result<ContextResource, String>)
        requires
            old(self).wf(),
        ensures
            final(self).wf(),
            final(self).instructions() == old(self).instructions(),
            final(self).context_dir() == old(self).context_dir(),
            ({
                let rs = old(self).resources();
                let p = position(rs, resource_id@);
                if p < 0 {
                    &&& r is Err
                    &&& r->Err_0@ == not_found_message(resource_id@)
                    &&& final(self).resources() == rs
                    &&& final(self).cached() == old(self).cached()
                } else {
                    &&& r is Ok
                    &&& r->Ok_0 == rs[p]
                    &&& final(self).resources() == without(rs, resource_id@)
                    &&& final(self).cached() == old(self).cached().remove(resource_id@)
                }
            }),
    {
        let id = string_of(&chars_of(resource_id));
        match self.index_of(&id) {
            None => {
                let mut msg: Vec<char> = Vec::new();
                push_str(&mut msg, "Resource not found: ");
                push_str(&mut msg, resource_id);
                Err(string_of(&msg))
            },
            Some(i) => {
                self.cache_remove(&id);
                let ghost before = self.resources@;
                let resource = self.resources.remove(i);
                proof {
                    assert forall|a: int| 0 <= a < self.cache@.len() implies position(
                        self.resources@,
                        #[trigger] self.cache@[a].id@,
                    ) >= 0 by {
                        let k = self.cache@[a].id@;
                        lemma_cache_dom(self.cache@, k);
                        lemma_without_keeps(before, id@, k);
                    }
                }
                Ok(resource)
            },
        }
    }

    /// Checks, without changing anything, that every id names a loaded
    /// resource; the first that does not is reported.
    pub fn check_ids(&self, resource_ids: &[String]) -> (r: Result<(), String>)
        ensures
            match first_missing(self.resources(), string_views(resource_ids@)) {
                Some(id) => r is Err && r->Err_0@ == not_found_message(id),
                None => r is Ok,
            },
    {
        let ghost ids = string_views(resource_ids@);
        let mut i: usize = 0;
        assert(ids.subrange(0, ids.len() as int) =~= ids);
        while i < resource_ids.len()
            invariant
                i <= resource_ids@.len(),
                ids == string_views(resource_ids@),
                first_missing(self.resources(), ids) == first_missing(
                    self.resources(),
                    ids.subrange(i as int, ids.len() as int),
                ),
            decreases resource_ids.len() - i,
        {
            proof {
                assert(ids.subrange(i as int, ids.len() as int).drop_first() =~= ids.subrange(
                    i + 1,
                    ids.len() as int,
                ));
                assert(ids.subrange(i as int, ids.len() as int)[0] == ids[i as int]);
            }
            let id = &resource_ids[i];
            if self.index_of(id).is_none() {
                let mut msg: Vec<char> = Vec::new();
                push_str(&mut msg, "Resource not found: ");
                push_str(&mut msg, id.as_str());
                return Err(string_of(&msg));
            }
            i = i + 1;
        }
        proof {
            assert(ids.subrange(ids.len() as int, ids.len() as int) =~= Seq::<Seq<char>>::empty());
        }
        Ok(())
    }

    /// Removes several resources after validating that every requested id
    /// exists; repeated ids count once. On an unknown id nothing is removed.
    /// The removed resources are returned so their copies can be deleted;
    /// `source_folder` is never touched.
    pub fn remove_files(&mut self, resource_ids: &[String]) -> (r: Result<Vec<ContextResource>, String>)
        requires
            old(self).wf(),
        ensures
            final(self).wf(),
            final(self).instructions() == old(self).instructions(),
            final(self).context_dir() == old(self).context_dir(),
            match removal(old(self).resources(), string_views(resource_ids@)) {
                Err(msg) => r is Err && r->Err_0@ == msg && final(self).resources() == old(
                    self,
                ).resources() && final(self).cached() == old(self).cached(),
                Ok((rest, removed)) => r is Ok && r->Ok_0@ == removed && final(self).resources()
                    == rest && final(self).cached() == old(self).cached().remove_keys(
                    string_views(resource_ids@).to_set(),
                ),
            },
    {
        let ghost ids = string_views(resource_ids@);
        let unique = dedup_ids(resource_ids);
        let ghost u = dedup(ids);
        let mut found: Vec<ContextResource> = Vec::new();
        let mut i: usize = 0;
        proof {
            assert(u.subrange(0, u.len() as int) =~= u);
            assert(found@ =~= found_all(self.resources(), u.subrange(0, 0)));
        }
        while i < unique.len()
            invariant
                i <= unique@.len(),
                string_views(unique@) == u,
                u == dedup(ids),
                ids == string_views(resource_ids@),
                self.resources() == old(self).resources(),
                self.cached() == old(self).cached(),
                self.wf(),
                self.instructions() == old(self).instructions(),
                self.context_dir() == old(self).context_dir(),
                first_missing(self.resources(), u) == first_missing(
                    self.resources(),
                    u.subrange(i as int, u.len() as int),
                ),
                found@ == found_all(self.resources(), u.subrange(0, i as int)),
                forall|j: int| 0 <= j < i ==> position(self.resources(), #[trigger] u[j]) >= 0,
            decreases unique.len() - i,
        {
            proof {
                assert(u.subrange(i as int, u.len() as int).drop_first() =~= u.subrange(
                    i + 1,
                    u.len() as int,
                ));
                assert(u.subrange(i as int, u.len() as int)[0] == u[i as int]);
            }
            assert(unique@[i as int]@ == u[i as int]);
            match self.index_of(&unique[i]) {
                None => {
                    let mut msg: Vec<char> = Vec::new();
                    push_str(&mut msg, "Resource not found: ");
                    push_str(&mut msg, unique[i].as_str());
                    proof {
                        let tail = u.subrange(i as int, u.len() as int);
                        assert(tail[0] == u[i as int]);
                        assert(position(self.resources(), tail[0]) < 0);
                        assert(first_missing(self.resources(), tail) == Some(u[i as int]));
                        assert(msg@ == not_found_message(u[i as int]));
                        assert(first_missing(old(self).resources(), u) == Some(u[i as int]));
                        assert(removal(old(self).resources(), ids) == Err::<
                            (Seq<ContextResource>, Seq<ContextResource>),
                            Seq<char>,
                        >(not_found_message(u[i as int])));
                    }
                    return Err(string_of(&msg));
                },
                Some(p) => {
                    found.push(self.resources[p].duplicate());
                    proof {
                        assert(found@ =~= found_all(self.resources(), u.subrange(0, i + 1)));
                    }
                },
            }
            i = i + 1;
        }
        proof {
            assert(u.subrange(0, u.len() as int) =~= u);
            assert(u.subrange(u.len() as int, u.len() as int) =~= Seq::<Seq<char>>::empty());
        }
        let ghost rs0 = self.resources();
        proof {
            lemma_dedup_members(ids);
            assert(self.cached().remove_keys(u.subrange(0, 0).to_set()) =~= self.cached());
        }
        let mut k: usize = 0;
        while k < unique.len()
            invariant
                k <= unique@.len(),
                string_views(unique@) == u,
                u == dedup(ids),
                ids == string_views(resource_ids@),
                rs0 == old(self).resources(),
                found@ == found_all(rs0, u),
                self.resources() == without_all(rs0, u.subrange(0, k as int)),
                self.cached() == old(self).cached().remove_keys(u.subrange(0, k as int).to_set()),
                distinct(u),
                forall|j: int| k <= j < u.len() ==> position(self.resources(), #[trigger] u[j]) >= 0,
                self.wf(),
                self.instructions() == old(self).instructions(),
                self.context_dir() == old(self).context_dir(),
            decreases unique.len() - k,
        {
            let ghost before = self.resources();
            let ghost cache_before = self.cached();
            assert(unique@[k as int]@ == u[k as int]);
            let removed = self.remove_file(unique[k].as_str());
            proof {
                assert(u.subrange(0, k + 1).drop_last() =~= u.subrange(0, k as int));
                assert forall|j: int| k + 1 <= j < u.len() implies position(
                    self.resources(),
                    #[trigger] u[j],
                ) >= 0 by {
                    lemma_without_keeps(before, u[k as int], u[j]);
                }
                assert forall|x: Seq<char>| #[trigger] u.subrange(0, k + 1).to_set().contains(x)
                    <==> (u.subrange(0, k as int).to_set().contains(x) || x == u[k as int]) by {
                    if u.subrange(0, k + 1).contains(x) {
                        let q = choose|q: int| 0 <= q < k + 1 && #[trigger] u.subrange(0, k + 1)[q] == x;
                        if q < k {
                            assert(u.subrange(0, k as int)[q] == x);
                        }
                    }
                    if u.subrange(0, k as int).contains(x) {
                        let q = choose|q: int| 0 <= q < k && #[trigger] u.subrange(0, k as int)[q] == x;
                        assert(u.subrange(0, k + 1)[q] == x);
                    }
                    if x == u[k as int] {
                        assert(u.subrange(0, k + 1)[k as int] == x);
                    }
                }
                assert(self.cached() =~= old(self).cached().remove_keys(
                    u.subrange(0, k + 1).to_set(),
                ));
            }
            k = k + 1;
        }
        proof {
            assert(u.subrange(0, u.len() as int) =~= u);
            assert(u.to_set() =~= ids.to_set());
        }
        Ok(found)
    }

    /// The ids of the resources imported from `source_folder` (already
    /// normalized by the caller), in list order.
    pub fn resource_ids_for_folder(&self, source_folder: &str) -> (r: Vec<String>)
        ensures
            string_views(r@) == folder_ids(self.resources(), source_folder@),
    {
        let folder = string_of(&chars_of(source_folder));
        let mut ids: Vec<String> = Vec::new();
        let mut i: usize = 0;
        while i < self.resources.len()
            invariant
                i <= self.resources@.len(),
                folder@ == source_folder@,
                string_views(ids@) == folder_ids(
                    self.resources@.subrange(0, i as int),
                    source_folder@,
                ),
            decreases self.resources.len() - i,
        {
            proof {
                assert(self.resources@.subrange(0, i + 1).drop_last() =~= self.resources@.subrange(
                    0,
                    i as int,
                ));
            }
            assert(self.resources@.subrange(0, i + 1).last() == self.resources@[i as int]);
            let ghost before = ids@;
            let same = string_eq(&self.resources[i].source_folder, &folder);
            if same {
                ids.push(self.resources[i].id.clone());
                assert(string_views(ids@) =~= string_views(before).push(
                    self.resources@[i as int].id@,
                ));
                assert(self.resources@[i as int].source_folder@ == source_folder@);
            } else {
                assert(self.resources@[i as int].source_folder@ != source_folder@);
            }
            i = i + 1;
        }
        proof {
            assert(self.resources@.subrange(0, self.resources@.len() as int) =~= self.resources@);
        }
        ids
    }

    /// Removes all resources imported from `source_folder`.
    pub fn remove_folder(&mut self, source_folder: &str) -> (r: Result<Vec<ContextResource>, String>)
        requires
            old(self).wf(),
        ensures
            final(self).wf(),
            final(self).instructions() == old(self).instructions(),
            final(self).context_dir() == old(self).context_dir(),
            match removal(old(self).resources(), folder_ids(old(self).resources(), source_folder@)) {
                Err(msg) => r is Err && r->Err_0@ == msg && final(self).resources() == old(
                    self,
                ).resources() && final(self).cached() == old(self).cached(),
                Ok((rest, removed)) => r is Ok && r->Ok_0@ == removed && final(self).resources()
                    == rest && final(self).cached() == old(self).cached().remove_keys(
                    folder_ids(old(self).resources(), source_folder@).to_set(),
                ),
            },
    {
        let ids = self.resource_ids_for_folder(source_folder);
        proof {
            assert(string_views(ids@) == folder_ids(old(self).resources(), source_folder@));
        }
        self.remove_files(ids.as_slice())
    }

    /// Removes every loaded resource.
    pub fn remove_all_files(&mut self) -> (r: Result<Vec<ContextResource>, String>)
        requires
            old(self).wf(),
        ensures
            final(self).wf(),
            final(self).instructions() == old(self).instructions(),
            final(self).context_dir() == old(self).context_dir(),
            match removal(old(self).resources(), resource_ids(old(self).resources())) {
                Err(msg) => r is Err && r->Err_0@ == msg && final(self).resources() == old(
                    self,
                ).resources() && final(self).cached() == old(self).cached(),
                Ok((rest, removed)) => r is Ok && r->Ok_0@ == removed && final(self).resources()
                    == rest && final(self).cached() == old(self).cached().remove_keys(
                    resource_ids(old(self).resources()).to_set(),
                ),
            },
    {
        let mut ids: Vec<String> = Vec::new();
        let mut i: usize = 0;
        while i < self.resources.len()
            invariant
                i <= self.resources@.len(),
                string_views(ids@) == resource_ids(
                    self.resources@.subrange(0, i as int),
                ),
            decreases self.resources.len() - i,
        {
            let ghost before = ids@;
            ids.push(self.resources[i].id.clone());
            assert(self.resources@.subrange(0, i + 1) =~= self.resources@.subrange(0, i as int).push(
                self.resources@[i as int],
            ));
            assert(string_views(ids@) =~= string_views(before).push(
                self.resources@[i as int].id@,
            ));
            assert(string_views(ids@) =~= resource_ids(
                self.resources@.subrange(0, i + 1),
            ));
            i = i + 1;
        }
        proof {
            assert(self.resources@.subrange(0, self.resources@.len() as int) =~= self.resources@);
        }
        self.remove_files(ids.as_slice())
    }

    /// All loaded resources, in load order.
    pub fn list_resources(&self) -> (r: Vec<ContextResource>)
        ensures
            r@ == self.resources(),
    {
        let mut r: Vec<ContextResource> = Vec::new();
        let mut i: usize = 0;
        while i < self.resources.len()
            invariant
                i <= self.resources@.len(),
                r@ == self.resources@.subrange(0, i as int),
            decreases self.resources.len() - i,
        {
            r.push(self.resources[i].duplicate());
            i = i + 1;
            assert(r@ =~= self.resources@.subrange(0, i as int));
        }
        assert(self.resources@.subrange(0, self.resources@.len() as int) =~= self.resources@);
        r
    }

    /// The cached text of `id`, if any.
    fn cached_text(&self, id: &String) -> (r: Option<&String>)
        requires
            self.wf(),
        ensures
            match r {
                Some(t) => self.cached().contains_key(id@) && t@ == self.cached()[id@],
                None => !self.cached().contains_key(id@),
            },
    {
        match self.cache_index(id) {
            Some(i) => {
                proof {
                    lemma_cache_value(self.cache@, i as int);
                }
                Some(&self.cache[i].text)
            },
            None => None,
        }
    }

    /// The concatenation of the custom instructions and every resource's
    /// text, each under its own heading.
    pub fn get_assembled_context(&self) -> (r: String)
        requires
            self.wf(),
        ensures
            r@ == assembled(self.instructions(), self.resources(), self.cached()),
    {
        let mut parts: Vec<Vec<char>> = Vec::new();
        if self.custom_instructions.as_str().is_empty() == false {
            let mut p: Vec<char> = Vec::new();
            push_str(&mut p, "## Custom Instructions\n");
            push_str(&mut p, self.custom_instructions.as_str());
            push_str(&mut p, "\n");
            parts.push(p);
        }
        let ghost head = char_views(parts@);
        assert(head =~= if self.instructions().len() > 0 {
            seq!["## Custom Instructions\n"@ + self.instructions() + "\n"@]
        } else {
            Seq::<Seq<char>>::empty()
        });
        assert(resource_parts(self.resources@.subrange(0, 0), self.cached()) =~= Seq::<Seq<char>>::empty());
        assert(head + resource_parts(self.resources@.subrange(0, 0), self.cached()) =~= head);
        let mut i: usize = 0;
        while i < self.resources.len()
            invariant
                self.wf(),
                i <= self.resources@.len(),
                char_views(parts@) == head + resource_parts(
                    self.resources@.subrange(0, i as int),
                    self.cached(),
                ),
            decreases self.resources.len() - i,
        {
            let r = &self.resources[i];
            proof {
                assert(self.resources@.subrange(0, i + 1).drop_last() =~= self.resources@.subrange(
                    0,
                    i as int,
                ));
                assert(self.resources@.subrange(0, i + 1).last() == self.resources@[i as int]);
            }
            let ghost before = char_views(parts@);
            match self.cached_text(&r.id) {
                Some(t) => {
                    if !t.as_str().is_empty() {
                        let mut p: Vec<char> = Vec::new();
                        push_str(&mut p, "## ");
                        push_str(&mut p, r.name.as_str());
                        push_str(&mut p, " (");
                        push_str(&mut p, r.file_type.as_str());
                        push_str(&mut p, ")\n");
                        push_str(&mut p, t.as_str());
                        push_str(&mut p, "\n");
                        parts.push(p);
                        assert(char_views(parts@) =~= before.push(p@));
                    }
                },
                None => {},
            }
            i = i + 1;
        }
        proof {
            assert(self.resources@.subrange(0, self.resources@.len() as int) =~= self.resources@);
        }
        let mut sep: Vec<char> = Vec::new();
        push_str(&mut sep, "\n");
        let joined = join_chars(&parts, &sep);
        string_of(&joined)
    }

    /// Returns a bounded, always-available context slice for live interview
    /// turns. Resources whose names suggest a CV, profile, project or
    /// research summary are preferred; if none is named that way, the first
    /// loaded resource is used as a conservative fallback.
    pub fn get_hot_context(&self, max_chars: usize, include_custom_instructions: bool) -> (r: String)
        requires
            self.wf(),
        ensures
            r@ == hot_context(
                max_chars as int,
                include_custom_instructions,
                self.instructions(),
                self.resources(),
                self.cached(),
            ),
    {
        if max_chars == 0 {
            return String::new();
        }
        let selected = self.selected();
        let mut sections: Vec<Vec<char>> = Vec::new();
        let mut used: usize = 0;
        if include_custom_instructions && !self.custom_instructions.as_str().is_empty() {
            let mut first: Vec<char> = Vec::new();
            push_str(&mut first, "## Interview Instructions\n");
            push_str(&mut first, self.custom_instructions.as_str());
            used = first.len();
            sections.push(first);
        }
        proof {
            assert(char_views(sections@) =~= if include_custom_instructions
                && self.instructions().len() > 0 {
                seq!["## Interview Instructions\n"@ + self.instructions()]
            } else {
                Seq::<Seq<char>>::empty()
            });
        }
        let ghost sel = selected@;
        let ghost goal = hot_fold(sel, self.cached(), max_chars as int, char_views(sections@), used as int);
        let mut k: usize = 0;
        assert(sel.subrange(0, sel.len() as int) =~= sel);
        while k < selected.len()
            invariant
                self.wf(),
                k <= selected@.len(),
                sel == selected@,
                hot_fold(
                    sel.subrange(k as int, sel.len() as int),
                    self.cached(),
                    max_chars as int,
                    char_views(sections@),
                    used as int,
                ) == goal,
            ensures
                char_views(sections@) == goal,
            decreases selected.len() - k,
        {
            let ghost rest = sel.subrange(k as int, sel.len() as int);
            proof {
                assert(rest[0] == sel[k as int]);
                assert(rest.drop_first() =~= sel.subrange(k + 1, sel.len() as int));
            }
            let r = &selected[k];
            match self.cached_text(&r.id) {
                None => {},
                Some(t) => {
                    let text = chars_of(t.as_str());
                    if text.len() > 0 && used < max_chars {
                        let mut header: Vec<char> = Vec::new();
                        push_str(&mut header, "## ");
                        push_str(&mut header, r.name.as_str());
                        push_str(&mut header, " (");
                        push_str(&mut header, r.file_type.as_str());
                        push_str(&mut header, ")\n");
                        assert(header@ == section_header(sel[k as int]));
                        if header.len() >= max_chars - used {
                            break;
                        }
                        let remaining = max_chars - used - header.len();
                        let take = if remaining < text.len() {
                            remaining
                        } else {
                            text.len()
                        };
                        let body = crate::text::slice_of(&text, 0, take);
                        assert(body@ =~= text@.take(take as int));
                        let mut section = header.clone();
                        let hl = header.len();
                        push_all(&mut section, &body);
                        let ghost before = char_views(sections@);
                        sections.push(section);
                        assert(char_views(sections@) =~= before.push(header@ + body@));
                        used = used + hl + take;
                    }
                },
            }
            k = k + 1;
        }
        proof {
            if k >= selected@.len() {
                assert(sel.subrange(k as int, sel.len() as int) =~= Seq::<ContextResource>::empty());
            }
        }
        let mut sep: Vec<char> = Vec::new();
        push_str(&mut sep, "\n\n");
        let joined = join_chars(&sections, &sep);
        string_of(&joined)
    }

    /// The resources that the hot context draws from.
    fn selected(&self) -> (r: Vec<ContextResource>)
        ensures
            r@ == selected_resources(self.resources()),
    {
        let terms = hot_term_list();
        let mut hot: Vec<ContextResource> = Vec::new();
        let mut i: usize = 0;
        while i < self.resources.len()
            invariant
                i <= self.resources@.len(),
                views(terms@) == hot_terms(),
                hot@ == hot_resources(self.resources@.subrange(0, i as int)),
            decreases self.resources.len() - i,
        {
            proof {
                assert(self.resources@.subrange(0, i + 1).drop_last() =~= self.resources@.subrange(
                    0,
                    i as int,
                ));
                assert(self.resources@.subrange(0, i + 1).last() == self.resources@[i as int]);
            }
            let name = chars_of(self.resources[i].name.as_str());
            let lowered = lower_chars(&name);
            if any_term_of(&lowered, &terms) {
                hot.push(self.resources[i].duplicate());
            }
            i = i + 1;
        }
        proof {
            assert(self.resources@.subrange(0, self.resources@.len() as int) =~= self.resources@);
        }
        if hot.len() == 0 && self.resources.len() > 0 {
            let mut first: Vec<ContextResource> = Vec::new();
            first.push(self.resources[0].duplicate());
            assert(first@ =~= seq![self.resources@[0]]);
            return first;
        }
        hot
    }

    /// Computes the token budget breakdown of the loaded resources, the
    /// custom instructions and `transcript_tokens` against
    /// `model_context_window`.
    pub fn get_token_budget(&self, model_context_window: u64, transcript_tokens: usize) -> (r:
        TokenBudget)
        requires
            indexed_sum(budget_views(self.resources())) <= usize::MAX,
            active_total(tokens_for(self.instructions().len()) as int, transcript_tokens as int)
                <= usize::MAX,
        ensures
            r.total == active_total(
                tokens_for(self.instructions().len()) as int,
                transcript_tokens as int,
            ),
            r.limit == model_context_window,
            r.indexed_total == indexed_sum(budget_views(self.resources())),
            crate::token_counter::segment_views(r.segments@)
                == crate::token_counter::budget_segments(
                budget_views(self.resources()),
                tokens_for(self.instructions().len()) as int,
                transcript_tokens as int,
                (model_context_window as usize) as int,
            ),
    {
        let mut budget_resources: Vec<BudgetResource> = Vec::new();
        let mut i: usize = 0;
        while i < self.resources.len()
            invariant
                i <= self.resources@.len(),
                resource_views(budget_resources@) == budget_views(
                    self.resources@.subrange(0, i as int),
                ),
            decreases self.resources.len() - i,
        {
            let r = &self.resources[i];
            let b = BudgetResource {
                name: r.name.clone(),
                file_type: r.file_type.clone(),
                token_count: r.token_count,
            };
            let ghost before = budget_resources@;
            budget_resources.push(b);
            assert(resource_views(budget_resources@) =~= resource_views(before).push(b@));
            assert(budget_views(self.resources@.subrange(0, i + 1)) =~= budget_views(
                self.resources@.subrange(0, i as int),
            ).push(b@));
            i = i + 1;
        }
        proof {
            assert(self.resources@.subrange(0, self.resources@.len() as int) =~= self.resources@);
        }
        compute_budget(budget_resources.as_slice(), self.custom_instructions.as_str(), transcript_tokens, model_context_window)
    }

    /// Sets the custom instructions text.
    pub fn set_custom_instructions(&mut self, text: &str)
        ensures
            final(self).instructions() == text@,
            final(self).resources() == old(self).resources(),
            final(self).cached() == old(self).cached(),
            final(self).context_dir() == old(self).context_dir(),
            final(self).wf() == old(self).wf(),
    {
        self.custom_instructions = string_of(&chars_of(text));
    }

    /// The custom instructions text.
    pub fn get_custom_instructions(&self) -> (r: &str)
        ensures
            r@ == self.instructions(),
    {
        self.custom_instructions.as_str()
    }
}

fn hot_term_list() -> (v: Vec<&'static str>)
    ensures
        views(v@) == hot_terms(),
{
    let v = vec![
        "cv", "resume", "profile", "bio", "background", "motivation", "education", "experience",
        "project", "research", "introduction", "professor", "advisor", "lab", "laboratory",
        "教授", "导师", "简历", "背景", "经历", "动机", "教育", "项目", "研究", "个人介绍",
    ];
    assert(views(v@) =~= hot_terms());
    v
}

fn any_term_of(text: &Vec<char>, terms: &Vec<&str>) -> (r: bool)
    ensures
        r == any_term(text@, views(terms@)),
{
    let mut i: usize = 0;
    while i < terms.len()
        invariant
            i <= terms.len(),
            forall|j: int| 0 <= j < i ==> !has_sub(text@, #[trigger] views(terms@)[j]),
        decreases terms.len() - i,
    {
        if contains(text, &chars_of(terms[i])) {
            assert(has_sub(text@, views(terms@)[i as int]));
            return true;
        }
        i = i + 1;
    }
    false
}

fn string_eq(a: &String, b: &String) -> (r: bool)
    ensures
        r == (a@ == b@),
{
    *a == *b
}

/// Removes repeated ids, keeping each where it first occurs.
fn dedup_ids(ids: &[String]) -> (r: Vec<String>)
    ensures
        string_views(r@) == dedup(string_views(ids@)),
{
    let ghost all = string_views(ids@);
    let mut r: Vec<String> = Vec::new();
    let mut i: usize = 0;
    while i < ids.len()
        invariant
            i <= ids@.len(),
            all == string_views(ids@),
            string_views(r@) == dedup(all.subrange(0, i as int)),
        decreases ids.len() - i,
    {
        proof {
            assert(all.subrange(0, i + 1).drop_last() =~= all.subrange(0, i as int));
            assert(all.subrange(0, i + 1).last() == ids@[i as int]@);
        }
        let mut seen = false;
        let mut j: usize = 0;
        while j < r.len()
            invariant
                i < ids@.len(),
                j <= r@.len(),
                !seen ==> forall|q: int| 0 <= q < j ==> r@[q]@ != ids@[i as int]@,
                seen ==> exists|q: int| 0 <= q < r@.len() && r@[q]@ == ids@[i as int]@,
            decreases r.len() - j,
        {
            if r[j] == ids[i] {
                seen = true;
            }
            j = j + 1;
        }
        let ghost before = string_views(r@);
        proof {
            if seen {
                let q = choose|q: int| 0 <= q < r@.len() && r@[q]@ == ids@[i as int]@;
                assert(before[q] == ids@[i as int]@);
            } else {
                assert forall|q: int| 0 <= q < before.len() implies before[q] != ids@[i as int]@ by {
                    assert(before[q] == r@[q]@);
                }
            }
        }
        if !seen {
            r.push(ids[i].clone());
            assert(string_views(r@) =~= before.push(ids@[i as int]@));
        }
        i = i + 1;
    }
    proof {
        assert(all.subrange(0, ids@.len() as int) =~= all);
    }
    r
}

/// The preview shown for extracted text.
pub fn make_preview(text: &str) -> (r: String)
    ensures
        r@ == preview_of(text@),
{
    let c = chars_of(text);
    let n = c.len();
    if utf8_len_at_least(&c, 0, n, 101) {
        proof {
            assert(c@.subrange(0, n as int) =~= c@);
        }
        let end: usize = if n < 100 {
            n
        } else {
            100
        };
        let mut out = crate::text::slice_of(&c, 0, end);
        push_str(&mut out, "...");
        assert(out@ =~= c@.take(end as int) + "..."@);
        string_of(&out)
    } else {
        proof {
            assert(c@.subrange(0, n as int) =~= c@);
        }
        string_of(&c)
    }
}

} // verus!
