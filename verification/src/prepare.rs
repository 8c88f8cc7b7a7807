//! Read-only preflight checks run immediately before an interview starts.
//!
//! The checks never start capture, inject into a meeting, or send transcript
//! content. The caller enumerates devices and probes the configured services;
//! this module decides what each check reports.
use vstd::prelude::*;

use crate::text::{chars_eq, chars_of, join, join_chars, char_views, push_all, push_str, string_of, trim, trim_chars};

verus! {

/// One line of the preflight report.
#[derive(Debug)]
pub struct PrepareCheck {
    pub id: String,
    pub label: String,
    pub status: String,
    pub detail: String,
    pub required: bool,
}

/// The plain values of a check: id, label, status, detail and whether it is
/// required.
pub type CheckView = (Seq<char>, Seq<char>, Seq<char>, Seq<char>, bool);

impl View for PrepareCheck {
    type V = CheckView;

    open spec fn view(&self) -> CheckView {
        (self.id@, self.label@, self.status@, self.detail@, self.required)
    }
}

pub open spec fn check_views(v: Seq<PrepareCheck>) -> Seq<CheckView> {
    v.map_values(|c: PrepareCheck| c@)
}

/// The decimal digit `d`.
pub open spec fn digit(d: nat) -> char {
    ((48 + d) as u32) as char
}

/// The decimal representation of `n`, without leading zeros.
pub open spec fn decimal(n: nat) -> Seq<char>
    decreases n,
{
    if n < 10 {
        seq![digit(n)]
    } else {
        decimal(n / 10).push(digit(n % 10))
    }
}

/// The decimal representation of `n`.
pub fn decimal_chars(n: usize) -> (r: Vec<char>)
    ensures
        r@ == decimal(n as nat),
    decreases n,
{
    let d = (n % 10) as u8;
    let c = (48u8 + d) as char;
    assert(c == digit((n % 10) as nat));
    if n < 10 {
        let mut r: Vec<char> = Vec::new();
        r.push(c);
        assert(r@ =~= seq![digit(n as nat)]);
        r
    } else {
        let mut r = decimal_chars(n / 10);
        r.push(c);
        r
    }
}

fn check(id: &str, label: &str, status: &str, detail: Vec<char>, required: bool) -> (r: PrepareCheck)
    ensures
        r@ == (id@, label@, status@, detail@, required),
{
    PrepareCheck {
        id: string_of(&chars_of(id)),
        label: string_of(&chars_of(label)),
        status: string_of(&chars_of(status)),
        detail: string_of(&detail),
        required,
    }
}

/// `id` is unset, `default`, or one of `ids`.
pub open spec fn device_available(id: Seq<char>, ids: Seq<Seq<char>>) -> bool {
    id.len() == 0 || id == "default"@ || ids.contains(id)
}

pub open spec fn string_views(v: Seq<String>) -> Seq<Seq<char>> {
    v.map_values(|s: String| s@)
}

pub open spec fn opt_view(o: Option<String>) -> Option<Seq<char>> {
    match o {
        Some(s) => Some(s@),
        None => None,
    }
}

/// The audio check: inputs (and, online, outputs) must exist and the
/// selected devices must be among them.
pub open spec fn audio_check_spec(
    inputs: Seq<Seq<char>>,
    outputs: Seq<Seq<char>>,
    mic: Option<Seq<char>>,
    system: Option<Seq<char>>,
    mode: Option<Seq<char>>,
) -> CheckView {
    let mic_id = match mic {
        Some(m) => m,
        None => Seq::empty(),
    };
    let system_id = match system {
        Some(s) => s,
        None => Seq::empty(),
    };
    let online = mode != Some("in_person"@);
    let status = if inputs.len() == 0 || (online && outputs.len() == 0) {
        "error"@
    } else if !device_available(mic_id, inputs) || (online && !device_available(
        system_id,
        outputs,
    )) {
        "error"@
    } else {
        "ready"@
    };
    let detail = if online {
        decimal(inputs.len()) + " microphone(s), "@ + decimal(outputs.len())
            + " output device(s); selected devices are available"@
    } else {
        decimal(inputs.len()) + " microphone(s); in-person mode does not require system loopback"@
    };
    ("audio"@, "Microphone + system audio"@, status, detail, true)
}

/// The audio check reports `ready` exactly when there is a microphone, the
/// selected microphone is unset, `default` or among the inputs, and, unless
/// the interview is in person, there is an output device and the selected
/// system-audio device is unset, `default` or among the outputs; otherwise it
/// reports `error`.
pub proof fn law_audio_ready_needs_available_devices(
    inputs: Seq<Seq<char>>,
    outputs: Seq<Seq<char>>,
    mic: Option<Seq<char>>,
    system: Option<Seq<char>>,
    mode: Option<Seq<char>>,
)
    ensures
        ({
            let status = audio_check_spec(inputs, outputs, mic, system, mode).2;
            let mic_ok = match mic {
                Some(m) => m.len() == 0 || m == "default"@ || inputs.contains(m),
                None => true,
            };
            let system_ok = match system {
                Some(s) => s.len() == 0 || s == "default"@ || outputs.contains(s),
                None => true,
            };
            let online = mode != Some("in_person"@);
            &&& status == "ready"@ <==> (inputs.len() > 0 && mic_ok && (online ==> outputs.len() > 0
                && system_ok))
            &&& status != "ready"@ ==> status == "error"@
        }),
{
    reveal_strlit("ready");
    reveal_strlit("error");
    assert("ready"@[0] != "error"@[0]);
}

fn is_available(id: &Vec<char>, ids: &Vec<String>) -> (r: bool)
    ensures
        r == device_available(id@, string_views(ids@)),
{
    if id.len() == 0 || chars_eq(id, &chars_of("default")) {
        return true;
    }
    let mut i: usize = 0;
    while i < ids.len()
        invariant
            i <= ids@.len(),
            forall|j: int| 0 <= j < i ==> string_views(ids@)[j] != id@,
        decreases ids.len() - i,
    {
        if chars_eq(&chars_of(ids[i].as_str()), id) {
            assert(string_views(ids@)[i as int] == id@);
            return true;
        }
        i = i + 1;
    }
    false
}

/// The audio check from the enumerated device ids, the selected devices and
/// the audio mode.
pub fn audio_check(
    input_ids: &Vec<String>,
    output_ids: &Vec<String>,
    mic_device_id: Option<&str>,
    system_device_id: Option<&str>,
    audio_mode: Option<&str>,
) -> (r: PrepareCheck)
    ensures
        r@ == audio_check_spec(
            string_views(input_ids@),
            string_views(output_ids@),
            match mic_device_id {
                Some(m) => Some(m@),
                None => None,
            },
            match system_device_id {
                Some(s) => Some(s@),
                None => None,
            },
            match audio_mode {
                Some(a) => Some(a@),
                None => None,
            },
        ),
{
    let mic = match mic_device_id {
        Some(m) => chars_of(m),
        None => Vec::new(),
    };
    let system = match system_device_id {
        Some(s) => chars_of(s),
        None => Vec::new(),
    };
    let online = match audio_mode {
        Some(a) => !chars_eq(&chars_of(a), &chars_of("in_person")),
        None => true,
    };
    let status = if input_ids.len() == 0 || (online && output_ids.len() == 0) {
        "error"
    } else if !is_available(&mic, input_ids) || (online && !is_available(&system, output_ids)) {
        "error"
    } else {
        "ready"
    };
    let mut detail = decimal_chars(input_ids.len());
    if online {
        push_str(&mut detail, " microphone(s), ");
        push_all(&mut detail, &decimal_chars(output_ids.len()));
        push_str(&mut detail, " output device(s); selected devices are available");
    } else {
        push_str(&mut detail, " microphone(s); in-person mode does not require system loopback");
    }
    check("audio", "Microphone + system audio", status, detail, true)
}

/// What the caller resolved about one selected speech-to-text provider.
#[derive(Debug)]
pub struct SttProviderInfo {
    /// The configured value.
    pub value: String,
    /// The provider's canonical name, or `None` when the value names no
    /// known provider.
    pub name: Option<String>,
    /// Whether the provider needs an API key.
    pub needs_credentials: bool,
    /// Whether a non-blank key is stored for it.
    pub credentials_ready: bool,
}

pub type SttView = (Seq<char>, Option<Seq<char>>, bool, bool);

pub open spec fn stt_views(v: Seq<SttProviderInfo>) -> Seq<SttView> {
    v.map_values(|p: SttProviderInfo| (p.value@, opt_view(p.name), p.needs_credentials, p.credentials_ready))
}

/// `s` with every `_` replaced by a space.
pub open spec fn underscores_to_spaces(s: Seq<char>) -> Seq<char> {
    s.map_values(|c: char| if c == '_' {
        ' '
    } else {
        c
    })
}

/// The labels of the known providers, in order.
pub open spec fn stt_labels(ps: Seq<SttView>) -> Seq<Seq<char>>
    decreases ps.len(),
{
    if ps.len() == 0 {
        Seq::empty()
    } else {
        match ps.last().1 {
            Some(n) => stt_labels(ps.drop_last()).push(underscores_to_spaces(n)),
            None => stt_labels(ps.drop_last()),
        }
    }
}

/// The problems found with the providers, in order: unknown values and
/// missing credentials.
pub open spec fn stt_errors(ps: Seq<SttView>) -> Seq<Seq<char>>
    decreases ps.len(),
{
    if ps.len() == 0 {
        Seq::empty()
    } else {
        let p = ps.last();
        match p.1 {
            None => stt_errors(ps.drop_last()).push("unknown provider: "@ + p.0),
            Some(n) => if p.2 && !p.3 {
                stt_errors(ps.drop_last()).push(n + " credentials missing"@)
            } else {
                stt_errors(ps.drop_last())
            },
        }
    }
}

/// The speech-to-text check.
pub open spec fn stt_check_spec(ps: Seq<SttView>) -> CheckView {
    if ps.len() == 0 {
        ("stt"@, "Speech-to-text"@, "warning"@, "No party-specific STT provider selected yet"@, true)
    } else if stt_errors(ps).len() > 0 {
        ("stt"@, "Speech-to-text"@, "error"@, join(stt_errors(ps), "; "@), true)
    } else {
        (
            "stt"@,
            "Speech-to-text"@,
            "ready"@,
            join(stt_labels(ps), " + "@) + " — provider configuration is ready"@,
            true,
        )
    }
}

fn spaced(s: &str) -> (r: Vec<char>)
    ensures
        r@ == underscores_to_spaces(s@),
{
    let c = chars_of(s);
    let mut r: Vec<char> = Vec::new();
    let mut i: usize = 0;
    while i < c.len()
        invariant
            i <= c@.len(),
            r@ == underscores_to_spaces(c@.subrange(0, i as int)),
        decreases c.len() - i,
    {
        r.push(if c[i] == '_' {
            ' '
        } else {
            c[i]
        });
        i = i + 1;
        assert(r@ =~= underscores_to_spaces(c@.subrange(0, i as int)));
    }
    assert(c@.subrange(0, c@.len() as int) =~= c@);
    r
}

/// Whether a stored credential counts as configured: it exists and is not
/// blank once trimmed.
pub fn credentials_ready(stored_key: Option<&str>) -> (r: bool)
    ensures
        r == match stored_key {
            Some(k) => trim(k@).len() > 0,
            None => false,
        },
{
    match stored_key {
        Some(k) => trim_chars(&chars_of(k)).len() > 0,
        None => false,
    }
}

/// The speech-to-text check from the selected providers.
pub fn stt_provider_status(providers: &Vec<SttProviderInfo>) -> (r: PrepareCheck)
    ensures
        r@ == stt_check_spec(stt_views(providers@)),
{
    if providers.len() == 0 {
        return check(
            "stt",
            "Speech-to-text",
            "warning",
            chars_of("No party-specific STT provider selected yet"),
            true,
        );
    }
    let ghost ps = stt_views(providers@);
    let mut labels: Vec<Vec<char>> = Vec::new();
    let mut errors: Vec<Vec<char>> = Vec::new();
    let mut i: usize = 0;
    while i < providers.len()
        invariant
            i <= providers@.len(),
            ps == stt_views(providers@),
            char_views(labels@) == stt_labels(ps.subrange(0, i as int)),
            char_views(errors@) == stt_errors(ps.subrange(0, i as int)),
        decreases providers.len() - i,
    {
        proof {
            assert(ps.subrange(0, i + 1).drop_last() =~= ps.subrange(0, i as int));
            assert(ps.subrange(0, i + 1).last() == ps[i as int]);
        }
        let p = &providers[i];
        let ghost lb = char_views(labels@);
        let ghost eb = char_views(errors@);
        match &p.name {
            None => {
                let mut e: Vec<char> = Vec::new();
                push_str(&mut e, "unknown provider: ");
                push_str(&mut e, p.value.as_str());
                errors.push(e);
                assert(char_views(errors@) =~= eb.push(e@));
            },
            Some(n) => {
                let l = spaced(n.as_str());
                labels.push(l);
                assert(char_views(labels@) =~= lb.push(l@));
                if p.needs_credentials && !p.credentials_ready {
                    let mut e: Vec<char> = Vec::new();
                    push_str(&mut e, n.as_str());
                    push_str(&mut e, " credentials missing");
                    errors.push(e);
                    assert(char_views(errors@) =~= eb.push(e@));
                }
            },
        }
        i = i + 1;
    }
    proof {
        assert(ps.subrange(0, ps.len() as int) =~= ps);
    }
    if errors.len() > 0 {
        let detail = join_chars(&errors, &chars_of("; "));
        return check("stt", "Speech-to-text", "error", detail, true);
    }
    let mut detail = join_chars(&labels, &chars_of(" + "));
    push_str(&mut detail, " — provider configuration is ready");
    check("stt", "Speech-to-text", "ready", detail, true)
}

/// The passive-mode check, which always holds.
pub open spec fn privacy_check_spec() -> CheckView {
    (
        "privacy"@,
        "Passive meeting mode"@,
        "ready"@,
        "Only selected audio is read; no meeting controls or automatic input are used"@,
        true,
    )
}

pub fn privacy_check() -> (r: PrepareCheck)
    ensures
        r@ == privacy_check_spec(),
{
    check(
        "privacy",
        "Passive meeting mode",
        "ready",
        chars_of("Only selected audio is read; no meeting controls or automatic input are used"),
        true,
    )
}

/// The answer model the router has selected, if any.
#[derive(Debug)]
pub enum LlmStatus {
    /// No active provider.
    Missing,
    /// The active provider's display name and model.
    Configured { name: String, model: String },
}

/// Whether the configured model must pass a connection test.
pub open spec fn needs_test(status: LlmStatus) -> bool {
    match status {
        LlmStatus::Missing => false,
        LlmStatus::Configured { model, .. } => trim(model@).len() > 0,
    }
}

/// Whether the answer model must be probed before the check can be decided.
pub fn llm_needs_test(status: &LlmStatus) -> (r: bool)
    ensures
        r == needs_test(*status),
{
    match status {
        LlmStatus::Missing => false,
        LlmStatus::Configured { model, .. } => trim_chars(&chars_of(model.as_str())).len() > 0,
    }
}

/// The answer-model check, from the status and, when a test was needed, its
/// outcome: reachable, not passing, or an error message.
pub open spec fn llm_check_spec(status: LlmStatus, test: Option<Result<bool, Seq<char>>>) -> CheckView {
    match status {
        LlmStatus::Missing => ("llm"@, "Answer model"@, "error"@, "No active LLM provider"@, true),
        LlmStatus::Configured { name, model } => if trim(model@).len() == 0 {
            ("llm"@, "Answer model"@, "error"@, name@ + " has no model selected"@, true)
        } else {
            match test {
                Some(Ok(true)) => (
                    "llm"@,
                    "Answer model"@,
                    "ready"@,
                    name@ + " · "@ + model@ + " is reachable"@,
                    true,
                ),
                Some(Ok(false)) => (
                    "llm"@,
                    "Answer model"@,
                    "error"@,
                    name@ + " · "@ + model@ + " did not pass its connection check"@,
                    true,
                ),
                Some(Err(e)) => ("llm"@, "Answer model"@, "error"@, e, true),
                None => ("llm"@, "Answer model"@, "error"@, Seq::empty(), true),
            }
        },
    }
}

pub fn llm_check(status: &LlmStatus, test: Option<Result<bool, String>>) -> (r: PrepareCheck)
    requires
        needs_test(*status) ==> test is Some,
    ensures
        r@ == llm_check_spec(
            *status,
            match test {
                Some(Ok(b)) => Some(Ok(b)),
                Some(Err(e)) => Some(Err(e@)),
                None => None,
            },
        ),
{
    match status {
        LlmStatus::Missing => check("llm", "Answer model", "error", chars_of("No active LLM provider"), true),
        LlmStatus::Configured { name, model } => {
            if trim_chars(&chars_of(model.as_str())).len() == 0 {
                let mut d = chars_of(name.as_str());
                push_str(&mut d, " has no model selected");
                return check("llm", "Answer model", "error", d, true);
            }
            match test {
                Some(Ok(true)) => {
                    let mut d = chars_of(name.as_str());
                    push_str(&mut d, " · ");
                    push_str(&mut d, model.as_str());
                    push_str(&mut d, " is reachable");
                    check("llm", "Answer model", "ready", d, true)
                },
                Some(Ok(false)) => {
                    let mut d = chars_of(name.as_str());
                    push_str(&mut d, " · ");
                    push_str(&mut d, model.as_str());
                    push_str(&mut d, " did not pass its connection check");
                    check("llm", "Answer model", "error", d, true)
                },
                Some(Err(e)) => check("llm", "Answer model", "error", chars_of(e.as_str()), true),
                None => check("llm", "Answer model", "error", Vec::new(), true),
            }
        },
    }
}

/// The knowledge-base check from the number of loaded files and, when the
/// index could be read, its number of chunks.
pub open spec fn context_check_spec(resource_count: nat, total_chunks: Option<nat>) -> CheckView {
    match total_chunks {
        Some(c) => if resource_count > 0 && c > 0 {
            (
                "context"@,
                "Personal knowledge base"@,
                "ready"@,
                decimal(resource_count) + " file(s), "@ + decimal(c) + " indexed chunk(s)"@,
                false,
            )
        } else if resource_count > 0 {
            (
                "context"@,
                "Personal knowledge base"@,
                "warning"@,
                decimal(resource_count) + " file(s) loaded but the search index is empty"@,
                false,
            )
        } else {
            (
                "context"@,
                "Personal knowledge base"@,
                "warning"@,
                "No personal files loaded; direct answers still work"@,
                false,
            )
        },
        None => (
            "context"@,
            "Personal knowledge base"@,
            "warning"@,
            "No personal files loaded; direct answers still work"@,
            false,
        ),
    }
}

pub fn context_check(resource_count: usize, total_chunks: Option<usize>) -> (r: PrepareCheck)
    ensures
        r@ == context_check_spec(
            resource_count as nat,
            match total_chunks {
                Some(c) => Some(c as nat),
                None => None,
            },
        ),
{
    match total_chunks {
        Some(c) => {
            if resource_count > 0 && c > 0 {
                let mut d = decimal_chars(resource_count);
                push_str(&mut d, " file(s), ");
                push_all(&mut d, &decimal_chars(c));
                push_str(&mut d, " indexed chunk(s)");
                check("context", "Personal knowledge base", "ready", d, false)
            } else if resource_count > 0 {
                let mut d = decimal_chars(resource_count);
                push_str(&mut d, " file(s) loaded but the search index is empty");
                check("context", "Personal knowledge base", "warning", d, false)
            } else {
                check(
                    "context",
                    "Personal knowledge base",
                    "warning",
                    chars_of("No personal files loaded; direct answers still work"),
                    false,
                )
            }
        },
        None => check(
            "context",
            "Personal knowledge base",
            "warning",
            chars_of("No personal files loaded; direct answers still work"),
            false,
        ),
    }
}

/// The translation check from the active translation provider, if any.
pub open spec fn translation_check_spec(provider: Option<Seq<char>>) -> CheckView {
    match provider {
        Some(p) => (
            "translation"@,
            "Live translation"@,
            "ready"@,
            p + " translation provider selected"@,
            false,
        ),
        None => (
            "translation"@,
            "Live translation"@,
            "warning"@,
            "Translation provider is optional and has not been initialized"@,
            false,
        ),
    }
}

pub fn translation_check(provider: Option<&str>) -> (r: PrepareCheck)
    ensures
        r@ == translation_check_spec(
            match provider {
                Some(p) => Some(p@),
                None => None,
            },
        ),
{
    match provider {
        Some(p) => {
            let mut d = chars_of(p);
            push_str(&mut d, " translation provider selected");
            check("translation", "Live translation", "ready", d, false)
        },
        None => check(
            "translation",
            "Live translation",
            "warning",
            chars_of("Translation provider is optional and has not been initialized"),
            false,
        ),
    }
}

/// The professor-profile check: ready when a non-blank profile is given.
pub open spec fn profile_check_spec(profile: Option<Seq<char>>) -> CheckView {
    match profile {
        Some(p) => if trim(p).len() > 0 {
            (
                "professor_profile"@,
                "Professor / lab profile"@,
                "ready"@,
                "Session profile is loaded for professor-related questions"@,
                false,
            )
        } else {
            profile_missing()
        },
        None => profile_missing(),
    }
}

pub open spec fn profile_missing() -> CheckView {
    (
        "professor_profile"@,
        "Professor / lab profile"@,
        "warning"@,
        "Optional — add a school, professor, lab, or research profile for more relevant follow-ups"@,
        false,
    )
}

pub fn professor_profile_check(profile: Option<&str>) -> (r: PrepareCheck)
    ensures
        r@ == profile_check_spec(
            match profile {
                Some(p) => Some(p@),
                None => None,
            },
        ),
{
    let given = match profile {
        Some(p) => trim_chars(&chars_of(p)).len() > 0,
        None => false,
    };
    if given {
        check(
            "professor_profile",
            "Professor / lab profile",
            "ready",
            chars_of("Session profile is loaded for professor-related questions"),
            false,
        )
    } else {
        check(
            "professor_profile",
            "Professor / lab profile",
            "warning",
            chars_of(
                "Optional — add a school, professor, lab, or research profile for more relevant follow-ups",
            ),
            false,
        )
    }
}

/// What the caller gathered before the interview.
pub struct PrepareInputs {
    pub input_ids: Vec<String>,
    pub output_ids: Vec<String>,
    pub mic_device_id: Option<String>,
    pub system_device_id: Option<String>,
    pub audio_mode: Option<String>,
    pub stt_providers: Vec<SttProviderInfo>,
    pub llm: LlmStatus,
    pub llm_test: Option<Result<bool, String>>,
    pub resource_count: usize,
    pub total_chunks: Option<usize>,
    pub translation_provider: Option<String>,
    pub professor_profile: Option<String>,
}

/// The full report, in order: audio, speech-to-text, passive mode, answer
/// model, knowledge base, translation, professor profile.
pub open spec fn prepare_report(inputs: PrepareInputs) -> Seq<CheckView> {
    seq![
        audio_check_spec(
            string_views(inputs.input_ids@),
            string_views(inputs.output_ids@),
            opt_view(inputs.mic_device_id),
            opt_view(inputs.system_device_id),
            opt_view(inputs.audio_mode),
        ),
        stt_check_spec(stt_views(inputs.stt_providers@)),
        privacy_check_spec(),
        llm_check_spec(
            inputs.llm,
            match inputs.llm_test {
                Some(Ok(b)) => Some(Ok(b)),
                Some(Err(e)) => Some(Err(e@)),
                None => None,
            },
        ),
        context_check_spec(
            inputs.resource_count as nat,
            match inputs.total_chunks {
                Some(c) => Some(c as nat),
                None => None,
            },
        ),
        translation_check_spec(opt_view(inputs.translation_provider)),
        profile_check_spec(opt_view(inputs.professor_profile)),
    ]
}

fn opt_str(o: &Option<String>) -> (r: Option<&str>)
    ensures
        match r {
            Some(s) => o is Some && s@ == o.unwrap()@,
            None => o is None,
        },
{
    match o {
        Some(s) => Some(s.as_str()),
        None => None,
    }
}

/// Decides every check of the preflight report from what was gathered.
pub fn prepare_interview(inputs: &PrepareInputs) -> (r: Vec<PrepareCheck>)
    requires
        needs_test(inputs.llm) ==> inputs.llm_test is Some,
    ensures
        check_views(r@) == prepare_report(*inputs),
{
    let mut checks: Vec<PrepareCheck> = Vec::new();
    checks.push(
        audio_check(
            &inputs.input_ids,
            &inputs.output_ids,
            opt_str(&inputs.mic_device_id),
            opt_str(&inputs.system_device_id),
            opt_str(&inputs.audio_mode),
        ),
    );
    checks.push(stt_provider_status(&inputs.stt_providers));
    checks.push(privacy_check());
    let test = match &inputs.llm_test {
        Some(Ok(b)) => Some(Ok(*b)),
        Some(Err(e)) => Some(Err(e.clone())),
        None => None,
    };
    checks.push(llm_check(&inputs.llm, test));
    checks.push(context_check(inputs.resource_count, inputs.total_chunks));
    checks.push(translation_check(opt_str(&inputs.translation_provider)));
    checks.push(professor_profile_check(opt_str(&inputs.professor_profile)));
    assert(check_views(checks@) =~= prepare_report(*inputs));
    checks
}

} // verus!
