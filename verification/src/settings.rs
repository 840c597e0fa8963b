//! Engine settings: defaults, and the checks that reject invalid values.
use vstd::prelude::*;

use crate::error::{is_error, AppError};
use crate::strings::{copy_str, push_str, to_chars, trim, trim_chars};

verus! {

/// The debug rendering of a string (quoted and escaped).
pub uninterp spec fn debug_quoted(s: Seq<char>) -> Seq<char>;

/// Formats a string with `{:?}` (its `Debug` rendering); the contract names the result.
#[verifier::external_body]
fn debug_string(s: &str) -> (r: String)
    ensures
        r@ == debug_quoted(s@),
{
    format!("{s:?}")
}

/// Settings of the merge of window decodes.
#[derive(Clone, Debug, PartialEq, Eq, Structural)]
pub struct MergeSettings {
    pub stable_ticks: u32,
    pub rollback_threshold_tokens: u32,
    pub overlap_k_words: u32,
    pub overlap_k_chars: u32,
}

impl Default for MergeSettings {
    fn default() -> (r: Self)
        ensures
            r.stable_ticks == 3,
            r.rollback_threshold_tokens == 8,
            r.overlap_k_words == 30,
            r.overlap_k_chars == 100,
    {
        MergeSettings {
            stable_ticks: 3,
            rollback_threshold_tokens: 8,
            overlap_k_words: 30,
            overlap_k_chars: 100,
        }
    }
}

/// The result of a settings check that fails with `message` when there is
/// one, and passes otherwise.
pub open spec fn checked(r: Result<(), AppError>, problem: Option<Seq<char>>) -> bool {
    match problem {
        Some(message) => is_error(r, "settings_invalid"@, message),
        None => r is Ok,
    }
}

/// What is wrong with merge settings, if anything: a zero `stable_ticks`
/// first, then a zero overlap limit.
pub open spec fn merge_problem(m: MergeSettings) -> Option<Seq<char>> {
    if m.stable_ticks == 0 {
        Some("stable_ticks must be greater than zero."@)
    } else if m.overlap_k_words == 0 || m.overlap_k_chars == 0 {
        Some("Overlap limits must be greater than zero."@)
    } else {
        None
    }
}

impl MergeSettings {
    /// Rejects a zero `stable_ticks` and zero overlap limits.
    pub fn validate(&self) -> (r: Result<(), AppError>)
        ensures
            checked(r, merge_problem(*self)),
    {
        if self.stable_ticks == 0 {
            return Err(AppError::new("settings_invalid", "stable_ticks must be greater than zero."));
        }
        if self.overlap_k_words == 0 || self.overlap_k_chars == 0 {
            return Err(AppError::new("settings_invalid", "Overlap limits must be greater than zero."));
        }
        Ok(())
    }
}

/// How many candidates a decode may try in each whisper pass.
#[derive(Clone, Debug, PartialEq, Eq, Structural)]
pub struct WhisperProfiles {
    pub window_best_of: u8,
    pub second_pass_best_of: u8,
}

impl Default for WhisperProfiles {
    fn default() -> (r: Self)
        ensures
            r.window_best_of == 1,
            r.second_pass_best_of == 5,
    {
        WhisperProfiles { window_best_of: 1, second_pass_best_of: 5 }
    }
}

/// Whether a best-of value is within `1..=8`.
pub open spec fn best_of_ok(v: u8) -> bool {
    1 <= v <= 8
}

/// What is wrong with the best-of values, if anything, the window value first.
pub open spec fn profiles_problem(p: WhisperProfiles) -> Option<Seq<char>> {
    if !best_of_ok(p.window_best_of) {
        Some("window_best_of must be within 1..=8."@)
    } else if !best_of_ok(p.second_pass_best_of) {
        Some("second_pass_best_of must be within 1..=8."@)
    } else {
        None
    }
}

impl WhisperProfiles {
    /// Rejects best-of values outside `1..=8`, the window value first.
    pub fn validate(&self) -> (r: Result<(), AppError>)
        ensures
            checked(r, profiles_problem(*self)),
    {
        if self.window_best_of == 0 || self.window_best_of > 8 {
            return Err(AppError::new("settings_invalid", "window_best_of must be within 1..=8."));
        }
        if self.second_pass_best_of == 0 || self.second_pass_best_of > 8 {
            return Err(
                AppError::new("settings_invalid", "second_pass_best_of must be within 1..=8."),
            );
        }
        Ok(())
    }
}

/// Settings of the whisper model.
#[derive(Clone, Debug)]
pub struct WhisperSettings {
    pub model_path: String,
    pub language: String,
    pub num_threads: Option<i32>,
    pub force_gpu: Option<bool>,
}

impl Default for WhisperSettings {
    fn default() -> (r: Self)
        ensures
            r.model_path@ == Seq::<char>::empty(),
            r.language@ == seq!['a', 'u', 't', 'o'],
            r.num_threads is None,
            r.force_gpu is None,
    {
        let mut language = String::new();
        crate::strings::push_char(&mut language, 'a');
        crate::strings::push_char(&mut language, 'u');
        crate::strings::push_char(&mut language, 't');
        crate::strings::push_char(&mut language, 'o');
        WhisperSettings { model_path: String::new(), language, num_threads: None, force_gpu: None }
    }
}

/// Whether a sequence contains a character.
pub open spec fn contains_char(s: Seq<char>, c: char) -> bool {
    exists|i: int| 0 <= i < s.len() && s[i] == c
}

/// Whether `s` contains the character `c`.
pub fn chars_contain(s: &[char], c: char) -> (r: bool)
    ensures
        r == contains_char(s@, c),
{
    let mut i: usize = 0;
    while i < s.len()
        invariant
            i <= s.len(),
            forall|j: int| 0 <= j < i ==> s@[j] != c,
        decreases s.len() - i,
    {
        if s[i] == c {
            return true;
        }
        i += 1;
    }
    false
}

/// Whether an optional thread count is set to a value that is not positive.
pub open spec fn bad_threads(t: Option<i32>) -> bool {
    t matches Some(v) && v <= 0
}

/// What is wrong with whisper settings, if anything: a NUL in the language
/// first, then a thread count that is set but not positive.
pub open spec fn whisper_problem(language: Seq<char>, num_threads: Option<i32>) -> Option<Seq<char>> {
    if contains_char(language, '\0') {
        Some("Whisper language must not contain NUL bytes."@)
    } else if bad_threads(num_threads) {
        Some("Whisper num_threads must be a positive integer when set."@)
    } else {
        None
    }
}

impl WhisperSettings {
    /// Rejects a language holding a NUL character and a thread count that is
    /// set but not positive.
    pub fn validate(&self) -> (r: Result<(), AppError>)
        ensures
            checked(r, whisper_problem(self.language@, self.num_threads)),
    {
        let lang = to_chars(self.language.as_str());
        if chars_contain(lang.as_slice(), '\0') {
            return Err(
                AppError::new("settings_invalid", "Whisper language must not contain NUL bytes."),
            );
        }
        if let Some(threads) = self.num_threads {
            if threads <= 0 {
                return Err(
                    AppError::new(
                        "settings_invalid",
                        "Whisper num_threads must be a positive integer when set.",
                    ),
                );
            }
        }
        Ok(())
    }
}

/// The integer settings of the sliding whisper window: its size and cadence,
/// the endpoint tail and the back-pressure limit.
#[derive(Clone, Copy, Debug, PartialEq, Eq, Structural)]
pub struct WindowSchedule {
    pub enabled: bool,
    pub window_ms: u64,
    pub step_ms: u64,
    pub context_ms: u64,
    pub emit_every: u32,
    pub endpoint_tail_ms: u64,
    pub window_backpressure_high_watermark: usize,
}

impl Default for WindowSchedule {
    fn default() -> (r: Self)
        ensures
            r.enabled,
            r.window_ms == 4000,
            r.step_ms == 400,
            r.context_ms == 800,
            r.emit_every == 1,
            r.endpoint_tail_ms == 200,
            r.window_backpressure_high_watermark == 16,
    {
        WindowSchedule {
            enabled: true,
            window_ms: 4000,
            step_ms: 400,
            context_ms: 800,
            emit_every: 1,
            endpoint_tail_ms: 200,
            window_backpressure_high_watermark: 16,
        }
    }
}

/// Checks the window settings. The four flags tell whether each activity
/// threshold is in range: `min_mean_abs` and `min_rms` finite and not
/// negative, `max_zero_crossing_rate` and `min_band_energy_ratio` finite and
/// within `0.0..=1.0`.
pub fn check_window_settings(
    w: &WindowSchedule,
    min_mean_abs_ok: bool,
    min_rms_ok: bool,
    max_zero_crossing_rate_ok: bool,
    min_band_energy_ratio_ok: bool,
) -> (r: Result<(), AppError>)
    ensures
        w.step_ms == 0 ==> is_error(r, "settings_invalid"@, "step_ms must be greater than zero."@),
        w.step_ms != 0 && w.window_ms < 100 ==> is_error(
            r,
            "settings_invalid"@,
            "window_ms must be at least 100."@,
        ),
        w.step_ms != 0 && w.window_ms >= 100 && !min_mean_abs_ok ==> is_error(
            r,
            "settings_invalid"@,
            "min_mean_abs must be a finite number greater than or equal to zero."@,
        ),
        w.step_ms != 0 && w.window_ms >= 100 && min_mean_abs_ok && !min_rms_ok ==> is_error(
            r,
            "settings_invalid"@,
            "min_rms must be a finite number greater than or equal to zero."@,
        ),
        w.step_ms != 0 && w.window_ms >= 100 && min_mean_abs_ok && min_rms_ok
            && !max_zero_crossing_rate_ok ==> is_error(
            r,
            "settings_invalid"@,
            "max_zero_crossing_rate must be a finite number between 0.0 and 1.0."@,
        ),
        w.step_ms != 0 && w.window_ms >= 100 && min_mean_abs_ok && min_rms_ok
            && max_zero_crossing_rate_ok && !min_band_energy_ratio_ok ==> is_error(
            r,
            "settings_invalid"@,
            "min_band_energy_ratio must be a finite number between 0.0 and 1.0."@,
        ),
        w.step_ms != 0 && w.window_ms >= 100 && min_mean_abs_ok && min_rms_ok
            && max_zero_crossing_rate_ok && min_band_energy_ratio_ok && w.emit_every == 0
            ==> is_error(r, "settings_invalid"@, "emit_every must be greater than zero."@),
        r is Ok <==> (w.step_ms != 0 && w.window_ms >= 100 && min_mean_abs_ok && min_rms_ok
            && max_zero_crossing_rate_ok && min_band_energy_ratio_ok && w.emit_every != 0),
{
    if w.step_ms == 0 {
        return Err(AppError::new("settings_invalid", "step_ms must be greater than zero."));
    }
    if w.window_ms < 100 {
        return Err(AppError::new("settings_invalid", "window_ms must be at least 100."));
    }
    if !min_mean_abs_ok {
        return Err(
            AppError::new(
                "settings_invalid",
                "min_mean_abs must be a finite number greater than or equal to zero.",
            ),
        );
    }
    if !min_rms_ok {
        return Err(
            AppError::new(
                "settings_invalid",
                "min_rms must be a finite number greater than or equal to zero.",
            ),
        );
    }
    if !max_zero_crossing_rate_ok {
        return Err(
            AppError::new(
                "settings_invalid",
                "max_zero_crossing_rate must be a finite number between 0.0 and 1.0.",
            ),
        );
    }
    if !min_band_energy_ratio_ok {
        return Err(
            AppError::new(
                "settings_invalid",
                "min_band_energy_ratio must be a finite number between 0.0 and 1.0.",
            ),
        );
    }
    if w.emit_every == 0 {
        return Err(AppError::new("settings_invalid", "emit_every must be greater than zero."));
    }
    Ok(())
}

/// The two decoding methods the streaming recogniser accepts.
pub open spec fn decoding_method_ok(m: Seq<char>) -> bool {
    m == "greedy_search"@ || m == "modified_beam_search"@
}

/// The message for an unknown decoding method.
pub open spec fn bad_method_message(m: Seq<char>) -> Seq<char> {
    "Invalid sherpa decoding method: "@ + debug_quoted(m)
        + ". Expected \"greedy_search\" or \"modified_beam_search\"."@
}

/// Checks the streaming recogniser settings. The three flags tell whether
/// each endpoint rule value is a positive, finite number.
pub fn check_sherpa_settings(
    provider: &str,
    decoding_method: &str,
    num_threads: Option<i32>,
    max_active_paths: i32,
    rule1_ok: bool,
    rule2_ok: bool,
    rule3_ok: bool,
    chunk_ms: u32,
) -> (r: Result<(), AppError>)
    ensures
        trim(provider@).len() == 0 ==> is_error(
            r,
            "settings_invalid"@,
            "Sherpa provider must not be empty."@,
        ),
        trim(provider@).len() > 0 && !decoding_method_ok(decoding_method@) ==> is_error(
            r,
            "settings_invalid"@,
            bad_method_message(decoding_method@),
        ),
        trim(provider@).len() > 0 && decoding_method_ok(decoding_method@) && bad_threads(
            num_threads,
        ) ==> is_error(
            r,
            "settings_invalid"@,
            "Sherpa num_threads must be a positive integer when set."@,
        ),
        trim(provider@).len() > 0 && decoding_method_ok(decoding_method@) && !bad_threads(
            num_threads,
        ) && max_active_paths <= 0 ==> is_error(
            r,
            "settings_invalid"@,
            "Sherpa max_active_paths must be a positive integer."@,
        ),
        trim(provider@).len() > 0 && decoding_method_ok(decoding_method@) && !bad_threads(
            num_threads,
        ) && max_active_paths > 0 && !rule1_ok ==> is_error(
            r,
            "settings_invalid"@,
            "Sherpa rule1_min_trailing_silence must be a positive, finite number."@,
        ),
        trim(provider@).len() > 0 && decoding_method_ok(decoding_method@) && !bad_threads(
            num_threads,
        ) && max_active_paths > 0 && rule1_ok && !rule2_ok ==> is_error(
            r,
            "settings_invalid"@,
            "Sherpa rule2_min_trailing_silence must be a positive, finite number."@,
        ),
        trim(provider@).len() > 0 && decoding_method_ok(decoding_method@) && !bad_threads(
            num_threads,
        ) && max_active_paths > 0 && rule1_ok && rule2_ok && !rule3_ok ==> is_error(
            r,
            "settings_invalid"@,
            "Sherpa rule3_min_utterance_length must be a positive, finite number."@,
        ),
        trim(provider@).len() > 0 && decoding_method_ok(decoding_method@) && !bad_threads(
            num_threads,
        ) && max_active_paths > 0 && rule1_ok && rule2_ok && rule3_ok && !(40 <= chunk_ms <= 400)
            ==> is_error(r, "settings_invalid"@, "Sherpa chunk_ms must be between 40 and 400."@),
        r is Ok <==> (trim(provider@).len() > 0 && decoding_method_ok(decoding_method@)
            && !bad_threads(num_threads) && max_active_paths > 0 && rule1_ok && rule2_ok && rule3_ok
            && 40 <= chunk_ms <= 400),
{
    let pv = to_chars(provider);
    let pt = trim_chars(pv.as_slice());
    if pt.len() == 0 {
        return Err(AppError::new("settings_invalid", "Sherpa provider must not be empty."));
    }
    if !(crate::strings::str_eq(decoding_method, "greedy_search") || crate::strings::str_eq(
        decoding_method,
        "modified_beam_search",
    )) {
        let mut message = copy_str("Invalid sherpa decoding method: ");
        let quoted = debug_string(decoding_method);
        push_str(&mut message, quoted.as_str());
        push_str(&mut message, ". Expected \"greedy_search\" or \"modified_beam_search\".");
        return Err(AppError { code: copy_str("settings_invalid"), message });
    }
    if let Some(threads) = num_threads {
        if threads <= 0 {
            return Err(
                AppError::new(
                    "settings_invalid",
                    "Sherpa num_threads must be a positive integer when set.",
                ),
            );
        }
    }
    if max_active_paths <= 0 {
        return Err(
            AppError::new("settings_invalid", "Sherpa max_active_paths must be a positive integer."),
        );
    }
    if !rule1_ok {
        return Err(
            AppError::new(
                "settings_invalid",
                "Sherpa rule1_min_trailing_silence must be a positive, finite number.",
            ),
        );
    }
    if !rule2_ok {
        return Err(
            AppError::new(
                "settings_invalid",
                "Sherpa rule2_min_trailing_silence must be a positive, finite number.",
            ),
        );
    }
    if !rule3_ok {
        return Err(
            AppError::new(
                "settings_invalid",
                "Sherpa rule3_min_utterance_length must be a positive, finite number.",
            ),
        );
    }
    if chunk_ms < 40 || chunk_ms > 400 {
        return Err(AppError::new("settings_invalid", "Sherpa chunk_ms must be between 40 and 400."));
    }
    Ok(())
}

/// What is wrong with the settings checked after the window, if anything:
/// the merge, the profiles, the queue limits, and finally that an enabled
/// window is at least one step long.
pub open spec fn later_problem(
    window: WindowSchedule,
    merge: MergeSettings,
    profiles: WhisperProfiles,
    second_pass_queue_capacity: usize,
) -> Option<Seq<char>> {
    if merge_problem(merge) is Some {
        merge_problem(merge)
    } else if profiles_problem(profiles) is Some {
        profiles_problem(profiles)
    } else if window.window_backpressure_high_watermark == 0 {
        Some("window_backpressure_high_watermark must be greater than zero."@)
    } else if second_pass_queue_capacity == 0 {
        Some("second_pass_queue_capacity must be greater than zero."@)
    } else if window.enabled && window.window_ms < window.step_ms {
        Some("window_ms must be greater than or equal to step_ms."@)
    } else {
        None
    }
}

/// Checks the whole set of settings in order: the recogniser (already
/// checked, `sherpa`), whisper, the window (already checked, `window_checked`),
/// the merge, the profiles, the queue limits, and finally that an enabled
/// window is at least one step long. The first failing check gives the error.
pub fn check_stt_settings(
    sherpa: Result<(), AppError>,
    whisper: &WhisperSettings,
    window_checked: Result<(), AppError>,
    window: &WindowSchedule,
    merge: &MergeSettings,
    profiles: &WhisperProfiles,
    second_pass_queue_capacity: usize,
) -> (r: Result<(), AppError>)
    ensures
        sherpa is Err ==> r == sherpa,
        sherpa is Ok && whisper_problem(whisper.language@, whisper.num_threads) is Some ==> checked(
            r,
            whisper_problem(whisper.language@, whisper.num_threads),
        ),
        sherpa is Ok && whisper_problem(whisper.language@, whisper.num_threads) is None
            && window_checked is Err ==> r == window_checked,
        sherpa is Ok && whisper_problem(whisper.language@, whisper.num_threads) is None
            && window_checked is Ok ==> checked(
            r,
            later_problem(*window, *merge, *profiles, second_pass_queue_capacity),
        ),
{
    if sherpa.is_err() {
        return sherpa;
    }
    let w = whisper.validate();
    if w.is_err() {
        return w;
    }
    if window_checked.is_err() {
        return window_checked;
    }
    let m = merge.validate();
    if m.is_err() {
        return m;
    }
    let p = profiles.validate();
    if p.is_err() {
        return p;
    }
    if window.window_backpressure_high_watermark == 0 {
        return Err(
            AppError::new(
                "settings_invalid",
                "window_backpressure_high_watermark must be greater than zero.",
            ),
        );
    }
    if second_pass_queue_capacity == 0 {
        return Err(
            AppError::new("settings_invalid", "second_pass_queue_capacity must be greater than zero."),
        );
    }
    if window.enabled && window.window_ms < window.step_ms {
        return Err(
            AppError::new("settings_invalid", "window_ms must be greater than or equal to step_ms."),
        );
    }
    Ok(())
}

} // verus!
