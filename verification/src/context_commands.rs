//! Decisions of the knowledge-base commands: which files an import takes,
//! and the names and text of the notes written into an Obsidian Vault.
use vstd::prelude::*;

use crate::text::{
    chars_eq, chars_of, lead, lemma_stop_bounds, lower, lower_chars, push_all, push_str,
    slice_of, stop, stop_index, string_of, trim, trim_chars, trim_class, trimmed, Strip,
};

verus! {

/// Characters that cannot appear in a file name on common systems.
pub open spec fn is_reserved(c: char) -> bool {
    c == '<' || c == '>' || c == ':' || c == '"' || c == '/' || c == '\\' || c == '|' || c == '?'
        || c == '*'
}

/// Unicode control characters (general category `Cc`), as `char::is_control`.
pub open spec fn is_control(c: char) -> bool {
    (c as u32) <= 0x1F || (0x7F <= (c as u32) && (c as u32) <= 0x9F)
}

pub open spec fn cleaned_char(c: char) -> char {
    if is_reserved(c) || is_control(c) {
        '_'
    } else {
        c
    }
}

/// A path component made from `value`: reserved and control characters
/// become `_`, surrounding whitespace and dots are removed, and at most 80
/// characters are kept; an empty result falls back to `fallback`.
pub open spec fn safe_component(value: Seq<char>, fallback: Seq<char>) -> Seq<char> {
    let cleaned = value.map_values(|c: char| cleaned_char(c));
    let t = trim_class(trim(cleaned), Strip::Dot);
    if t.len() == 0 {
        fallback
    } else {
        t.take(
            if t.len() < 80 {
                t.len() as int
            } else {
                80
            },
        )
    }
}

/// A component made safe is the fallback, or between 1 and 80 characters
/// long, free of reserved and control characters, and not led by a dot.
pub proof fn law_safe_component_is_safe(value: Seq<char>, fallback: Seq<char>)
    ensures
        safe_component(value, fallback) == fallback || ({
            let r = safe_component(value, fallback);
            &&& 0 < r.len() <= 80
            &&& r[0] != '.'
            &&& forall|i: int| 0 <= i < r.len() ==> !is_reserved(#[trigger] r[i]) && !is_control(r[i])
        }),
{
    let cleaned = value.map_values(|c: char| cleaned_char(c));
    let x = trim(cleaned);
    let lo = crate::text::lead(cleaned, Strip::Space, 0);
    crate::text::lemma_lead_bounds(cleaned, Strip::Space, 0);
    crate::text::lemma_tail_bounds(cleaned, Strip::Space, cleaned.len() as int, lo);
    let lo2 = crate::text::lead(x, Strip::Dot, 0);
    crate::text::lemma_lead_bounds(x, Strip::Dot, 0);
    crate::text::lemma_tail_bounds(x, Strip::Dot, x.len() as int, lo2);
    let t = trim_class(x, Strip::Dot);
    if t.len() > 0 {
        let r = safe_component(value, fallback);
        assert(r[0] == x[lo2]);
        assert forall|i: int| 0 <= i < r.len() implies !is_reserved(#[trigger] r[i]) && !is_control(
            r[i],
        ) by {
            assert(r[i] == x[lo2 + i]);
            assert(x[lo2 + i] == cleaned[lo + lo2 + i]);
        }
    }
}

/// Makes `value` safe to use as one path component.
pub fn safe_path_component(value: &str, fallback: &str) -> (r: String)
    ensures
        r@ == safe_component(value@, fallback@),
{
    let v = chars_of(value);
    let mut cleaned: Vec<char> = Vec::new();
    let mut i: usize = 0;
    while i < v.len()
        invariant
            i <= v@.len(),
            cleaned@ == v@.subrange(0, i as int).map_values(|c: char| cleaned_char(c)),
        decreases v.len() - i,
    {
        let c = v[i];
        let u = c as u32;
        let bad = c == '<' || c == '>' || c == ':' || c == '"' || c == '/' || c == '\\' || c == '|'
            || c == '?' || c == '*' || u <= 0x1F || (0x7F <= u && u <= 0x9F);
        cleaned.push(if bad {
            '_'
        } else {
            c
        });
        i = i + 1;
        assert(cleaned@ =~= v@.subrange(0, i as int).map_values(|c: char| cleaned_char(c)));
    }
    assert(v@.subrange(0, v@.len() as int) =~= v@);
    let t1 = trim_chars(&cleaned);
    let t = trimmed(&t1, Strip::Dot);
    if t.len() == 0 {
        return string_of(&chars_of(fallback));
    }
    let n = if t.len() < 80 {
        t.len()
    } else {
        80
    };
    let out = slice_of(&t, 0, n);
    assert(out@ =~= t@.take(n as int));
    string_of(&out)
}

/// The first line of `s` at or after `p` that is not blank, trimmed, or
/// nothing when every line is blank.
pub open spec fn first_line_from(s: Seq<char>, p: int) -> Seq<char>
    decreases s.len() - p,
{
    if p < 0 || p > s.len() {
        Seq::empty()
    } else {
        let e = stop(s, Strip::Newline, p);
        proof {
            lemma_stop_bounds(s, Strip::Newline, p);
        }
        let line = trim(s.subrange(p, e));
        if line.len() > 0 {
            line
        } else if e >= s.len() {
            Seq::empty()
        } else {
            first_line_from(s, e + 1)
        }
    }
}

/// The folder named after a professor profile: its first non-blank line,
/// made safe, or `Unassigned Profile`.
pub open spec fn profile_folder(profile: Option<Seq<char>>) -> Seq<char> {
    let first = match profile {
        Some(p) => first_line_from(p, 0),
        None => Seq::empty(),
    };
    safe_component(first, "Unassigned Profile"@)
}

pub fn profile_folder_name(profile: Option<&str>) -> (r: String)
    ensures
        r@ == profile_folder(
            match profile {
                Some(p) => Some(p@),
                None => None,
            },
        ),
{
    let first: Vec<char> = match profile {
        None => Vec::new(),
        Some(p) => {
            let s = chars_of(p);
            let mut pos: usize = 0;
            let mut found: Vec<char> = Vec::new();
            loop
                invariant_except_break
                    found@ == Seq::<char>::empty(),
                invariant
                    pos <= s@.len(),
                    s@ == p@,
                    first_line_from(s@, pos as int) == first_line_from(p@, 0),
                ensures
                    found@ == first_line_from(p@, 0),
                decreases s@.len() - pos,
            {
                let e = stop_index(&s, Strip::Newline, pos);
                proof {
                    lemma_stop_bounds(s@, Strip::Newline, pos as int);
                }
                let raw = slice_of(&s, pos, e);
                let line = trim_chars(&raw);
                if line.len() > 0 {
                    found = line;
                    break;
                }
                if e >= s.len() {
                    break;
                }
                pos = e + 1;
            }
            found
        },
    };
    let folder = safe_path_component(string_of(&first).as_str(), "Unassigned Profile");
    folder
}

/// The extensions the knowledge base imports: `pdf`, `txt`, `md` and `docx`,
/// in any ASCII case.
pub open spec fn supported_extension(extension: Option<Seq<char>>) -> bool {
    match extension {
        Some(e) => {
            let l = lower(e);
            l == "pdf"@ || l == "txt"@ || l == "md"@ || l == "docx"@
        },
        None => false,
    }
}

/// Whether a file with this extension is imported from a knowledge-base
/// folder.
pub fn is_supported_context_file(extension: Option<&str>) -> (r: bool)
    ensures
        r == supported_extension(
            match extension {
                Some(e) => Some(e@),
                None => None,
            },
        ),
{
    match extension {
        None => false,
        Some(e) => {
            let l = lower_chars(&chars_of(e));
            chars_eq(&l, &chars_of("pdf")) || chars_eq(&l, &chars_of("txt")) || chars_eq(
                &l,
                &chars_of("md"),
            ) || chars_eq(&l, &chars_of("docx"))
        },
    }
}

/// The folder import takes exactly the files whose extension, ASCII
/// lower-cased, the knowledge-base loader accepts as a file type, and no file
/// without an extension.
pub proof fn law_import_filter_matches_loader(extension: Seq<char>)
    ensures
        supported_extension(Some(extension)) == crate::context::file_type_from(lower(extension))
            is Some,
        supported_extension(Some(extension)) ==> crate::context::file_type_from(lower(extension))
            == Some(lower(extension)),
        !supported_extension(None),
{
}

/// Markdown notes, in any ASCII case.
pub open spec fn markdown_extension(extension: Option<Seq<char>>) -> bool {
    match extension {
        Some(e) => lower(e) == "md"@,
        None => false,
    }
}

/// Whether a file with this extension is a note of an Obsidian Vault.
pub fn is_markdown_file(extension: Option<&str>) -> (r: bool)
    ensures
        r == markdown_extension(
            match extension {
                Some(e) => Some(e@),
                None => None,
            },
        ),
{
    match extension {
        None => false,
        Some(e) => chars_eq(&lower_chars(&chars_of(e)), &chars_of("md")),
    }
}

/// Hidden directories, such as `.obsidian` or `.trash`, are not walked.
pub fn is_hidden_name(name: &str) -> (r: bool)
    ensures
        r == (name@.len() > 0 && name@[0] == '.'),
{
    let c = chars_of(name);
    c.len() > 0 && c[0] == '.'
}

/// Why an entry of the Mistake Bank cannot be written.
pub open spec fn mistake_bank_error(content: Seq<char>) -> Option<Seq<char>> {
    if trim(content).len() == 0 {
        Some("Mistake Bank content is empty"@)
    } else {
        None
    }
}

/// The text appended to the Mistake Bank note: its heading when the note is
/// new, then the entry heading and the trimmed content.
pub open spec fn mistake_bank_text(
    is_new: bool,
    profile: Seq<char>,
    date: Seq<char>,
    title: Seq<char>,
    content: Seq<char>,
) -> Seq<char> {
    (if is_new {
        "# Interview Mistake Bank\n"@ + "\nProfile: "@ + profile + "\n"@
    } else {
        Seq::empty()
    }) + "\n## "@ + safe_component(date, "undated"@) + " — "@ + safe_component(
        title,
        "Interview"@,
    ) + "\n\n"@ + trim(content) + "\n"@
}

/// Checks a Mistake Bank entry and returns the text to append.
pub fn mistake_bank_entry(
    is_new: bool,
    profile: &str,
    meeting_date: &str,
    title: &str,
    content: &str,
) -> (r: Result<String, String>)
    ensures
        match mistake_bank_error(content@) {
            Some(e) => r is Err && r->Err_0@ == e,
            None => r is Ok && r->Ok_0@ == mistake_bank_text(
                is_new,
                profile@,
                meeting_date@,
                title@,
                content@,
            ),
        },
{
    let body = trim_chars(&chars_of(content));
    if body.len() == 0 {
        return Err(string_of(&chars_of("Mistake Bank content is empty")));
    }
    let mut t: Vec<char> = Vec::new();
    if is_new {
        push_str(&mut t, "# Interview Mistake Bank\n");
        push_str(&mut t, "\nProfile: ");
        push_str(&mut t, profile);
        push_str(&mut t, "\n");
    }
    let date = safe_path_component(meeting_date, "undated");
    let entry_title = safe_path_component(title, "Interview");
    push_str(&mut t, "\n## ");
    push_str(&mut t, date.as_str());
    push_str(&mut t, " — ");
    push_str(&mut t, entry_title.as_str());
    push_str(&mut t, "\n\n");
    push_all(&mut t, &body);
    push_str(&mut t, "\n");
    Ok(string_of(&t))
}

/// The file name of an interview review: the safe title with `.md`, or,
/// when that file exists, with `-<suffix>.md` (the caller's `HHMMSS` time).
pub open spec fn review_file_name(title: Seq<char>, exists_suffix: Option<Seq<char>>) -> Seq<char> {
    let base = safe_component(title, "interview"@);
    match exists_suffix {
        None => base + ".md"@,
        Some(s) => base + "-"@ + s + ".md"@,
    }
}

pub fn review_file(title: &str, exists_suffix: Option<&str>) -> (r: String)
    ensures
        r@ == review_file_name(
            title@,
            match exists_suffix {
                Some(s) => Some(s@),
                None => None,
            },
        ),
{
    let base = safe_path_component(title, "interview");
    let mut n = chars_of(base.as_str());
    match exists_suffix {
        None => push_str(&mut n, ".md"),
        Some(s) => {
            push_str(&mut n, "-");
            push_str(&mut n, s);
            push_str(&mut n, ".md");
        },
    }
    string_of(&n)
}

} // verus!
