//! The recogniser comparison harness: run plans, printing helpers, audio
//! bookkeeping and word/character error counts.
use vstd::prelude::*;

use std::path::PathBuf;

use crate::strings::{
    ascii_lower, char_is_whitespace, char_to_lowercase_chars, is_alnum, is_ascii_alnum, lower_chars,
    copy_str, from_chars, is_alphanumeric, push_char, push_chars, push_str, split_whitespace,
    to_chars, trim, trim_chars, words,
};
use crate::transcript::{join_pieces, TokenMode};

verus! {

/// What `truncate_text` returns: the trimmed text, cut to `max` characters
/// with an ellipsis when it is longer.
pub open spec fn truncate_spec(text: Seq<char>, max: usize) -> Seq<char> {
    let t = trim(text);
    if t.len() == 0 || max == 0 {
        seq![]
    } else if max == usize::MAX || t.len() <= max {
        t
    } else {
        t.take(max as int).push('…')
    }
}

/// Trims a text and cuts it to `max_len` characters, marking a cut with `…`.
pub fn truncate_text(text: &str, max_len: usize) -> (r: String)
    ensures
        r@ == truncate_spec(text@, max_len),
{
    let v = to_chars(text);
    let t = trim_chars(v.as_slice());
    if t.len() == 0 {
        return String::new();
    }
    if max_len == 0 {
        return String::new();
    }
    if max_len == usize::MAX {
        return from_chars(t.as_slice());
    }
    if t.len() <= max_len {
        return from_chars(t.as_slice());
    }
    let mut out = String::new();
    let mut i: usize = 0;
    while i < max_len
        invariant
            i <= max_len,
            max_len < t@.len(),
            out@ == t@.take(i as int),
        decreases max_len - i,
    {
        push_char(&mut out, t[i]);
        assert(t@.take(i + 1) =~= t@.take(i as int).push(t@[i as int]));
        i += 1;
    }
    push_char(&mut out, '…');
    out
}

/// The trimmed, non-blank parts.
pub open spec fn nonblank_trimmed(parts: Seq<Seq<char>>) -> Seq<Seq<char>>
    decreases parts.len(),
{
    if parts.len() == 0 {
        seq![]
    } else {
        let prev = nonblank_trimmed(parts.drop_last());
        let t = trim(parts.last());
        if t.len() == 0 {
            prev
        } else {
            prev.push(t)
        }
    }
}

/// Joins the trimmed, non-blank parts with single spaces.
pub fn join_text_parts(parts: &[String]) -> (r: String)
    ensures
        r@ == join_pieces(nonblank_trimmed(parts@.map_values(|p: String| p@)), TokenMode::Words),
{
    let ghost ps = parts@.map_values(|p: String| p@);
    let mut out = String::new();
    let mut count: usize = 0;
    let mut i: usize = 0;
    while i < parts.len()
        invariant
            i <= parts@.len(),
            ps == parts@.map_values(|p: String| p@),
            count == nonblank_trimmed(ps.take(i as int)).len(),
            out@ == join_pieces(nonblank_trimmed(ps.take(i as int)), TokenMode::Words),
            count <= i,
        decreases parts@.len() - i,
    {
        assert(ps.take(i + 1).drop_last() =~= ps.take(i as int));
        assert(ps.take(i + 1).last() == parts@[i as int]@);
        let pv = to_chars(parts[i].as_str());
        let t = trim_chars(pv.as_slice());
        if t.len() != 0 {
            let ghost prev = nonblank_trimmed(ps.take(i as int));
            let ghost next = prev.push(t@);
            assert(next.drop_last() =~= prev);
            if count > 0 {
                push_char(&mut out, ' ');
            }
            push_chars(&mut out, t.as_slice());
            if count == 0 {
                assert(next =~= seq![t@]);
            }
            count += 1;
        }
        i += 1;
    }
    assert(ps.take(ps.len() as int) =~= ps);
    out
}

/// Milliseconds of audio in `samples` samples (zero for a zero rate).
pub open spec fn samples_to_ms_spec(samples: usize, rate: u32) -> u64 {
    if rate == 0 {
        0
    } else {
        let p = samples * 1000;
        ((if p > u64::MAX {
            u64::MAX as int
        } else {
            p
        }) / (rate as int)) as u64
    }
}

/// Milliseconds of audio in a number of samples; the product saturates.
pub fn samples_to_ms(samples: usize, sample_rate_hz: u32) -> (r: u64)
    ensures
        r == samples_to_ms_spec(samples, sample_rate_hz),
{
    if sample_rate_hz == 0 {
        return 0;
    }
    let p = match (samples as u64).checked_mul(1000) {
        Some(v) => v,
        None => u64::MAX,
    };
    p / (sample_rate_hz as u64)
}

/// The duration of a recording: zero when empty, else at least one millisecond.
pub fn duration_ms(sample_count: usize, sample_rate_hz: u32) -> (r: u64)
    ensures
        r == (if sample_count == 0 {
            0
        } else if samples_to_ms_spec(sample_count, sample_rate_hz) < 1 {
            1
        } else {
            samples_to_ms_spec(sample_count, sample_rate_hz)
        }),
{
    if sample_count == 0 {
        return 0;
    }
    let ms = samples_to_ms(sample_count, sample_rate_hz);
    if ms < 1 {
        1
    } else {
        ms
    }
}

/// The number of samples in a chunk, at least one; a zero rate or chunk is an error.
pub fn chunk_size_samples(sample_rate_hz: u32, chunk_ms: u32) -> (r: Result<usize, String>)
    ensures
        sample_rate_hz == 0 ==> (r matches Err(m) && m@ == "Sample rate must be greater than zero."@),
        sample_rate_hz != 0 && chunk_ms == 0 ==> (r matches Err(m) && m@
            == "Chunk size must be greater than zero."@),
        sample_rate_hz != 0 && chunk_ms != 0 ==> r == Ok::<usize, String>(
            (if (sample_rate_hz * chunk_ms) / 1000 < 1 {
                1
            } else {
                (sample_rate_hz * chunk_ms) / 1000
            }) as usize,
        ),
{
    if sample_rate_hz == 0 {
        return Err(copy_str("Sample rate must be greater than zero."));
    }
    if chunk_ms == 0 {
        return Err(copy_str("Chunk size must be greater than zero."));
    }
    assert((sample_rate_hz as u64) * (chunk_ms as u64) <= u32::MAX * u32::MAX) by (nonlinear_arith);
    let samples = (sample_rate_hz as u64) * (chunk_ms as u64) / 1000;
    if samples < 1 {
        Ok(1)
    } else {
        Ok(samples as usize)
    }
}

/// Whisper's thread count as a `usize`: the configured count when positive, else one.
pub fn whisper_threads_usize(threads: Option<i32>) -> (r: usize)
    ensures
        r == (match threads {
            Some(v) if v > 0 => v as usize,
            _ => 1,
        }),
{
    match threads {
        Some(v) => {
            if v > 0 {
                v as usize
            } else {
                1
            }
        },
        None => 1,
    }
}

/// GPU use for whisper.
#[derive(Clone, Copy, Debug, PartialEq, Eq, Structural)]
pub enum WhisperGpuMode {
    Auto,
    On,
    Off,
}

impl WhisperGpuMode {
    /// The forced GPU choice: none for `Auto`.
    pub fn force_gpu(&self) -> (r: Option<bool>)
        ensures
            r == (match *self {
                WhisperGpuMode::Auto => None,
                WhisperGpuMode::On => Some(true),
                WhisperGpuMode::Off => Some(false),
            }),
    {
        match self {
            WhisperGpuMode::Auto => None,
            WhisperGpuMode::On => Some(true),
            WhisperGpuMode::Off => Some(false),
        }
    }
}

/// The execution provider of the streaming recogniser.
#[derive(Clone, Copy, Debug, PartialEq, Eq, Structural)]
pub enum SherpaProvider {
    Cpu,
    Coreml,
}

impl SherpaProvider {
    /// The provider's name.
    pub fn as_str(&self) -> (r: &'static str)
        ensures
            r@ == (match *self {
                SherpaProvider::Cpu => "cpu"@,
                SherpaProvider::Coreml => "coreml"@,
            }),
    {
        match self {
            SherpaProvider::Cpu => "cpu",
            SherpaProvider::Coreml => "coreml",
        }
    }
}

/// The decoding method of the streaming recogniser.
#[derive(Clone, Copy, Debug, PartialEq, Eq, Structural)]
pub enum SherpaDecodingMethod {
    GreedySearch,
    ModifiedBeamSearch,
}

impl SherpaDecodingMethod {
    /// The method's name.
    pub fn as_str(&self) -> (r: &'static str)
        ensures
            r@ == (match *self {
                SherpaDecodingMethod::GreedySearch => "greedy_search"@,
                SherpaDecodingMethod::ModifiedBeamSearch => "modified_beam_search"@,
            }),
    {
        match self {
            SherpaDecodingMethod::GreedySearch => "greedy_search",
            SherpaDecodingMethod::ModifiedBeamSearch => "modified_beam_search",
        }
    }
}

/// Checks the whisper options of a run and returns the trimmed language.
pub fn check_whisper_args(language: &str, best_of: i32, beam_size: Option<i32>) -> (r: Result<
    String,
    String,
>)
    ensures
        trim(language@).len() == 0 ==> (r matches Err(m) && m@
            == "Whisper language must not be empty."@),
        trim(language@).len() > 0 && best_of < 1 ==> (r matches Err(m) && m@
            == "--whisper-best-of must be at least 1."@),
        trim(language@).len() > 0 && best_of > 8 ==> (r matches Err(m) && m@
            == "--whisper-best-of must be at most 8."@),
        trim(language@).len() > 0 && 1 <= best_of <= 8 && (beam_size matches Some(s) && s < 1)
            ==> (r matches Err(m) && m@ == "--whisper-beam-size must be at least 1."@),
        trim(language@).len() > 0 && 1 <= best_of <= 8 && !(beam_size matches Some(s) && s < 1)
            ==> (r matches Ok(l) && l@ == trim(language@)),
{
    let v = to_chars(language);
    let t = trim_chars(v.as_slice());
    if t.len() == 0 {
        return Err(copy_str("Whisper language must not be empty."));
    }
    if best_of < 1 {
        return Err(copy_str("--whisper-best-of must be at least 1."));
    }
    if best_of > 8 {
        return Err(copy_str("--whisper-best-of must be at most 8."));
    }
    if let Some(size) = beam_size {
        if size < 1 {
            return Err(copy_str("--whisper-beam-size must be at least 1."));
        }
    }
    Ok(from_chars(t.as_slice()))
}

/// One recording to run, with its optional reference transcript.
#[derive(Debug)]
pub struct RunConfig {
    pub wav_path: PathBuf,
    pub reference_text: Option<String>,
}

/// Settings of the streaming recogniser for a run.
#[derive(Debug)]
pub struct SherpaConfig {
    pub model_path: PathBuf,
    pub provider: String,
    pub num_threads: i32,
    pub decoding_method: String,
    pub max_active_paths: i32,
    pub prefer_int8: bool,
    pub use_int8_decoder: bool,
}

/// A recording captured from the microphone.
#[derive(Debug)]
pub struct CapturedWav {
    pub wav_path: PathBuf,
}

/// An entry of the reference manifest.
#[derive(Debug)]
pub struct ReferenceEntry {
    pub wav: PathBuf,
    pub text: String,
}

/// The reference manifest.
#[derive(Debug)]
pub struct ReferenceManifest {
    pub references: Vec<ReferenceEntry>,
}

/// A recording of the manifest, resolved.
#[derive(Debug)]
pub struct ManifestCase {
    pub wav_path: PathBuf,
    pub reference_text: Option<String>,
}

/// Where the audio of a run comes from.
#[derive(Debug)]
pub enum InputPlan {
    Mic,
    Manifest { cases: Vec<ManifestCase> },
}

/// The model files of the streaming recogniser, as paths.
#[derive(Debug)]
pub struct SherpaModelFiles {
    pub tokens: String,
    pub encoder: String,
    pub joiner: String,
    pub decoder: String,
}

/// What `Path::join` gives for a directory and a file name, as text: the
/// path that the platform's rules make of the two (on Unix, the name after
/// the directory and a `/`).
pub uninterp spec fn joined_path(dir: Seq<char>, name: Seq<char>) -> Seq<char>;

/// Calls `Path::join` on a directory and a file name and renders the result
/// as text; both are UTF-8, so the rendering loses nothing. The contract says
/// that the result is `joined_path` of the two arguments.
#[verifier::external_body]
fn join_path(dir: &str, name: &str) -> (r: String)
    ensures
        r@ == joined_path(dir@, name@),
{
    std::path::Path::new(dir).join(name).to_string_lossy().into_owned()
}

/// The seven files that decide a model directory's files: the tokens
/// file, then the int8 variant and the fp32 file of the encoder, the joiner
/// and the decoder.
#[derive(Debug)]
pub struct ModelFilePaths {
    pub tokens: String,
    pub encoder_int8: String,
    pub encoder: String,
    pub joiner_int8: String,
    pub joiner: String,
    pub decoder_int8: String,
    pub decoder: String,
}

/// Which of the files of `ModelFilePaths` exist, each by the field of the
/// same name.
#[derive(Clone, Copy, Debug, PartialEq, Eq, Structural)]
pub struct ModelFilePresence {
    pub tokens: bool,
    pub encoder_int8: bool,
    pub encoder: bool,
    pub joiner_int8: bool,
    pub joiner: bool,
    pub decoder_int8: bool,
    pub decoder: bool,
}

/// The paths in `model_dir` whose existence decides the model files.
pub fn model_file_paths(model_dir: &str) -> (r: ModelFilePaths)
    ensures
        r.tokens@ == joined_path(model_dir@, "tokens.txt"@),
        r.encoder_int8@ == joined_path(model_dir@, "encoder-epoch-99-avg-1.int8.onnx"@),
        r.encoder@ == joined_path(model_dir@, "encoder-epoch-99-avg-1.onnx"@),
        r.joiner_int8@ == joined_path(model_dir@, "joiner-epoch-99-avg-1.int8.onnx"@),
        r.joiner@ == joined_path(model_dir@, "joiner-epoch-99-avg-1.onnx"@),
        r.decoder_int8@ == joined_path(model_dir@, "decoder-epoch-99-avg-1.int8.onnx"@),
        r.decoder@ == joined_path(model_dir@, "decoder-epoch-99-avg-1.onnx"@),
{
    ModelFilePaths {
        tokens: join_path(model_dir, "tokens.txt"),
        encoder_int8: join_path(model_dir, "encoder-epoch-99-avg-1.int8.onnx"),
        encoder: join_path(model_dir, "encoder-epoch-99-avg-1.onnx"),
        joiner_int8: join_path(model_dir, "joiner-epoch-99-avg-1.int8.onnx"),
        joiner: join_path(model_dir, "joiner-epoch-99-avg-1.onnx"),
        decoder_int8: join_path(model_dir, "decoder-epoch-99-avg-1.int8.onnx"),
        decoder: join_path(model_dir, "decoder-epoch-99-avg-1.onnx"),
    }
}

/// Why the model files cannot be used: the tokens file is missing, or some
/// of the chosen encoder, joiner and decoder files are (each flag set for a
/// missing one).
#[derive(Clone, Copy, Debug, PartialEq, Eq, Structural)]
pub enum ModelFilesError {
    TokensMissing,
    FilesMissing { encoder: bool, joiner: bool, decoder: bool },
}

/// Whether the int8 variant of a model file is chosen: when allowed and present.
pub open spec fn int8_chosen(allow_int8: bool, int8_present: bool) -> bool {
    allow_int8 && int8_present
}

/// Whether a model file is usable: its int8 variant is chosen, or its fp32
/// file is present.
pub open spec fn model_file_ok(allow_int8: bool, int8_present: bool, fp32_present: bool) -> bool {
    int8_chosen(allow_int8, int8_present) || fp32_present
}

/// Decides the model files from what the file system said of each: the
/// tokens file must be present; the encoder and joiner take their int8
/// variants when `prefer_int8` is set and the variant is present, the decoder
/// when `use_int8_decoder` is; a file that does not take its int8 variant
/// needs its fp32 file. The result tells, for encoder, joiner and decoder,
/// whether the int8 variant was chosen, or which files are missing.
pub fn choose_model_files(
    tokens_present: bool,
    encoder_int8_present: bool,
    encoder_present: bool,
    joiner_int8_present: bool,
    joiner_present: bool,
    decoder_int8_present: bool,
    decoder_present: bool,
    prefer_int8: bool,
    use_int8_decoder: bool,
) -> (r: Result<(bool, bool, bool), ModelFilesError>)
    ensures
        !tokens_present ==> r == Err::<(bool, bool, bool), ModelFilesError>(
            ModelFilesError::TokensMissing,
        ),
        ({
            let e_ok = model_file_ok(prefer_int8, encoder_int8_present, encoder_present);
            let j_ok = model_file_ok(prefer_int8, joiner_int8_present, joiner_present);
            let d_ok = model_file_ok(use_int8_decoder, decoder_int8_present, decoder_present);
            &&& tokens_present && e_ok && j_ok && d_ok ==> r == Ok::<
                (bool, bool, bool),
                ModelFilesError,
            >(
                (
                    int8_chosen(prefer_int8, encoder_int8_present),
                    int8_chosen(prefer_int8, joiner_int8_present),
                    int8_chosen(use_int8_decoder, decoder_int8_present),
                ),
            )
            &&& tokens_present && !(e_ok && j_ok && d_ok) ==> r == Err::<
                (bool, bool, bool),
                ModelFilesError,
            >(ModelFilesError::FilesMissing { encoder: !e_ok, joiner: !j_ok, decoder: !d_ok })
        }),
{
    if !tokens_present {
        return Err(ModelFilesError::TokensMissing);
    }
    let encoder_int8 = prefer_int8 && encoder_int8_present;
    let joiner_int8 = prefer_int8 && joiner_int8_present;
    let decoder_int8 = use_int8_decoder && decoder_int8_present;
    let encoder_ok = encoder_int8 || encoder_present;
    let joiner_ok = joiner_int8 || joiner_present;
    let decoder_ok = decoder_int8 || decoder_present;
    if encoder_ok && joiner_ok && decoder_ok {
        Ok((encoder_int8, joiner_int8, decoder_int8))
    } else {
        Err(
            ModelFilesError::FilesMissing {
                encoder: !encoder_ok,
                joiner: !joiner_ok,
                decoder: !decoder_ok,
            },
        )
    }
}

/// The message listing missing model files, one per line.
pub open spec fn missing_message(lines: Seq<Seq<char>>) -> Seq<char> {
    "Missing required sherpa model files:\n- "@ + join_list(lines, "\n- "@)
}

/// Lines joined with a separator.
pub open spec fn join_list(lines: Seq<Seq<char>>, sep: Seq<char>) -> Seq<char>
    decreases lines.len(),
{
    if lines.len() == 0 {
        seq![]
    } else if lines.len() == 1 {
        lines[0]
    } else {
        join_list(lines.drop_last(), sep) + sep + lines.last()
    }
}

/// The message listing missing model files.
pub fn missing_files_message(lines: &[String]) -> (r: String)
    ensures
        r@ == missing_message(lines@.map_values(|l: String| l@)),
{
    let ghost ls = lines@.map_values(|l: String| l@);
    let mut joined = String::new();
    let mut i: usize = 0;
    while i < lines.len()
        invariant
            i <= lines@.len(),
            ls == lines@.map_values(|l: String| l@),
            joined@ == join_list(ls.take(i as int), "\n- "@),
        decreases lines@.len() - i,
    {
        assert(ls.take(i + 1).drop_last() =~= ls.take(i as int));
        assert(ls.take(i + 1).last() == lines@[i as int]@);
        if i > 0 {
            push_str(&mut joined, "\n- ");
        }
        push_str(&mut joined, lines[i].as_str());
        if i == 0 {
            assert(ls.take(1) =~= seq![ls[0]]);
            assert(joined@ =~= join_list(ls.take(1), "\n- "@));
        }
        i += 1;
    }
    assert(ls.take(ls.len() as int) =~= ls);
    let mut out = copy_str("Missing required sherpa model files:\n- ");
    push_str(&mut out, joined.as_str());
    out
}

/// The message when the tokens file at `path` is missing.
pub open spec fn tokens_missing_text(path: Seq<char>) -> Seq<char> {
    "Missing required sherpa model file: "@ + path + "."@
}

/// A line of the missing-files message for one model file: its label and
/// path when it is missing, nothing otherwise.
pub open spec fn missing_line(label: Seq<char>, missing: bool, path: Seq<char>) -> Seq<Seq<char>> {
    if missing {
        seq![label + path]
    } else {
        seq![]
    }
}

/// The message listing the missing encoder, joiner and decoder files of a
/// model directory, in that order, each by the path of its fp32 file.
pub open spec fn missing_files_text(dir: Seq<char>, encoder: bool, joiner: bool, decoder: bool) -> Seq<
    char,
> {
    missing_message(
        missing_line("encoder: "@, encoder, joined_path(dir, "encoder-epoch-99-avg-1.onnx"@))
            + missing_line("joiner: "@, joiner, joined_path(dir, "joiner-epoch-99-avg-1.onnx"@))
            + missing_line("decoder: "@, decoder, joined_path(dir, "decoder-epoch-99-avg-1.onnx"@)),
    )
}

/// The path of a model file in `dir`: its int8 variant when that was
/// chosen, its fp32 file otherwise.
pub open spec fn model_path(dir: Seq<char>, int8_name: Seq<char>, fp32_name: Seq<char>, int8: bool) -> Seq<char> {
    if int8 {
        joined_path(dir, int8_name)
    } else {
        joined_path(dir, fp32_name)
    }
}

/// The model files as text: tokens, encoder, joiner and decoder paths, or
/// the error message.
pub open spec fn files_view(r: Result<SherpaModelFiles, String>) -> Result<
    (Seq<char>, Seq<char>, Seq<char>, Seq<char>),
    Seq<char>,
> {
    match r {
        Ok(f) => Ok((f.tokens@, f.encoder@, f.joiner@, f.decoder@)),
        Err(m) => Err(m@),
    }
}

/// What the model files of `dir` are, given what the file system said of
/// each (`tokens`; then the int8 variant and the fp32 file of the encoder,
/// the joiner and the decoder): the message naming the tokens file when it
/// is missing; else the chosen paths, int8 exactly where `choose_model_files`
/// picks it, when every chosen file is there; else the message listing every
/// missing file.
pub open spec fn model_files_outcome(
    dir: Seq<char>,
    tokens: bool,
    encoder_int8: bool,
    encoder: bool,
    joiner_int8: bool,
    joiner: bool,
    decoder_int8: bool,
    decoder: bool,
    prefer_int8: bool,
    use_int8_decoder: bool,
) -> Result<(Seq<char>, Seq<char>, Seq<char>, Seq<char>), Seq<char>> {
    let e_ok = model_file_ok(prefer_int8, encoder_int8, encoder);
    let j_ok = model_file_ok(prefer_int8, joiner_int8, joiner);
    let d_ok = model_file_ok(use_int8_decoder, decoder_int8, decoder);
    if !tokens {
        Err(tokens_missing_text(joined_path(dir, "tokens.txt"@)))
    } else if e_ok && j_ok && d_ok {
        Ok(
            (
                joined_path(dir, "tokens.txt"@),
                model_path(
                    dir,
                    "encoder-epoch-99-avg-1.int8.onnx"@,
                    "encoder-epoch-99-avg-1.onnx"@,
                    int8_chosen(prefer_int8, encoder_int8),
                ),
                model_path(
                    dir,
                    "joiner-epoch-99-avg-1.int8.onnx"@,
                    "joiner-epoch-99-avg-1.onnx"@,
                    int8_chosen(prefer_int8, joiner_int8),
                ),
                model_path(
                    dir,
                    "decoder-epoch-99-avg-1.int8.onnx"@,
                    "decoder-epoch-99-avg-1.onnx"@,
                    int8_chosen(use_int8_decoder, decoder_int8),
                ),
            ),
        )
    } else {
        Err(missing_files_text(dir, !e_ok, !j_ok, !d_ok))
    }
}

/// Finds the streaming model's files in a directory, given which of its
/// `model_file_paths` exist: the tokens file must exist; the encoder and
/// joiner take their int8 variants when `prefer_int8` is set and the variant
/// exists, the decoder when `use_int8_decoder` is; every chosen file must
/// exist. An error names the missing tokens file, or lists every missing
/// encoder, joiner and decoder file in that order.
pub fn resolve_sherpa_model_files(
    model_dir: &str,
    present: &ModelFilePresence,
    prefer_int8: bool,
    use_int8_decoder: bool,
) -> (r: Result<SherpaModelFiles, String>)
    ensures
        files_view(r) == model_files_outcome(
            model_dir@,
            present.tokens,
            present.encoder_int8,
            present.encoder,
            present.joiner_int8,
            present.joiner,
            present.decoder_int8,
            present.decoder,
            prefer_int8,
            use_int8_decoder,
        ),
{
    let tokens = join_path(model_dir, "tokens.txt");
    match choose_model_files(
        present.tokens,
        present.encoder_int8,
        present.encoder,
        present.joiner_int8,
        present.joiner,
        present.decoder_int8,
        present.decoder,
        prefer_int8,
        use_int8_decoder,
    ) {
        Ok((encoder_is_int8, joiner_is_int8, decoder_is_int8)) => {
            let encoder = if encoder_is_int8 {
                join_path(model_dir, "encoder-epoch-99-avg-1.int8.onnx")
            } else {
                join_path(model_dir, "encoder-epoch-99-avg-1.onnx")
            };
            let joiner = if joiner_is_int8 {
                join_path(model_dir, "joiner-epoch-99-avg-1.int8.onnx")
            } else {
                join_path(model_dir, "joiner-epoch-99-avg-1.onnx")
            };
            let decoder = if decoder_is_int8 {
                join_path(model_dir, "decoder-epoch-99-avg-1.int8.onnx")
            } else {
                join_path(model_dir, "decoder-epoch-99-avg-1.onnx")
            };
            Ok(SherpaModelFiles { tokens, encoder, joiner, decoder })
        },
        Err(ModelFilesError::TokensMissing) => {
            let mut m = copy_str("Missing required sherpa model file: ");
            push_str(&mut m, tokens.as_str());
            push_char(&mut m, '.');
            proof {
                reveal_strlit(".");
                assert(m@ =~= tokens_missing_text(tokens@));
            }
            Err(m)
        },
        Err(ModelFilesError::FilesMissing { encoder: em, joiner: jm, decoder: dm }) => {
            let encoder = join_path(model_dir, "encoder-epoch-99-avg-1.onnx");
            let joiner = join_path(model_dir, "joiner-epoch-99-avg-1.onnx");
            let decoder = join_path(model_dir, "decoder-epoch-99-avg-1.onnx");
            let mut lines: Vec<String> = Vec::new();
            if em {
                let mut l = copy_str("encoder: ");
                push_str(&mut l, encoder.as_str());
                lines.push(l);
            }
            assert(lines@.map_values(|l: String| l@) =~= missing_line("encoder: "@, em, encoder@));
            if jm {
                let ghost before = lines@;
                let mut l = copy_str("joiner: ");
                push_str(&mut l, joiner.as_str());
                lines.push(l);
                assert(lines@ == before.push(l));
            }
            assert(lines@.map_values(|l: String| l@) =~= missing_line("encoder: "@, em, encoder@)
                + missing_line("joiner: "@, jm, joiner@));
            if dm {
                let ghost before = lines@;
                let mut l = copy_str("decoder: ");
                push_str(&mut l, decoder.as_str());
                lines.push(l);
                assert(lines@ == before.push(l));
            }
            assert(lines@.map_values(|l: String| l@) =~= missing_line("encoder: "@, em, encoder@)
                + missing_line("joiner: "@, jm, joiner@) + missing_line("decoder: "@, dm, decoder@));
            let m = missing_files_message(lines.as_slice());
            assert(m@ == missing_files_text(model_dir@, em, jm, dm));
            Err(m)
        },
    }
}

/// Items compared by their views.
pub trait Symbol: View + Sized {
    /// Whether two items have the same view.
    fn same(&self, other: &Self) -> (r: bool)
        ensures
            r == (self@ == other@),
    ;
}

impl Symbol for char {
    fn same(&self, other: &char) -> (r: bool) {
        *self == *other
    }
}

impl Symbol for String {
    fn same(&self, other: &String) -> (r: bool) {
        *self == *other
    }
}

/// The smaller of three counts.
pub open spec fn min3(a: nat, b: nat, c: nat) -> nat {
    let m = if a < b {
        a
    } else {
        b
    };
    if m < c {
        m
    } else {
        c
    }
}

/// The Levenshtein distance: the fewest insertions, deletions and
/// substitutions that turn `a` into `b`.
pub open spec fn lev<A>(a: Seq<A>, b: Seq<A>) -> nat
    decreases a.len() + b.len(),
{
    if a.len() == 0 {
        b.len()
    } else if b.len() == 0 {
        a.len()
    } else {
        min3(
            lev(a.drop_last(), b) + 1,
            lev(a, b.drop_last()) + 1,
            lev(a.drop_last(), b.drop_last()) + (if a.last() == b.last() {
                0nat
            } else {
                1nat
            }),
        )
    }
}

/// The views of a sequence of items.
pub open spec fn views_of<T: View>(s: Seq<T>) -> Seq<T::V> {
    s.map_values(|x: T| x@)
}

/// The distance is symmetric.
pub proof fn law_lev_symmetric<A>(a: Seq<A>, b: Seq<A>)
    ensures
        lev(a, b) == lev(b, a),
    decreases a.len() + b.len(),
{
    if a.len() > 0 && b.len() > 0 {
        law_lev_symmetric(a.drop_last(), b);
        law_lev_symmetric(a, b.drop_last());
        law_lev_symmetric(a.drop_last(), b.drop_last());
    }
}

/// A sequence is at distance zero from itself.
pub proof fn law_lev_identity<A>(a: Seq<A>)
    ensures
        lev(a, a) == 0,
    decreases a.len(),
{
    if a.len() > 0 {
        law_lev_identity(a.drop_last());
    }
}

/// The distance is zero exactly when the sequences are equal.
pub proof fn law_lev_zero_iff_equal<A>(a: Seq<A>, b: Seq<A>)
    ensures
        (lev(a, b) == 0) <==> (a == b),
    decreases a.len() + b.len(),
{
    if a =~= b {
        law_lev_identity(a);
    } else if a.len() > 0 && b.len() > 0 {
        law_lev_zero_iff_equal(a.drop_last(), b.drop_last());
        if lev(a, b) == 0 {
            assert(a.last() == b.last());
            assert(a.drop_last() == b.drop_last());
            assert(a =~= a.drop_last().push(a.last()));
            assert(b =~= b.drop_last().push(b.last()));
        }
    }
}

/// The distance is at least the difference of the lengths.
pub proof fn law_lev_length_gap<A>(a: Seq<A>, b: Seq<A>)
    ensures
        lev(a, b) + b.len() >= a.len(),
        lev(a, b) + a.len() >= b.len(),
    decreases a.len() + b.len(),
{
    if a.len() > 0 && b.len() > 0 {
        law_lev_length_gap(a.drop_last(), b);
        law_lev_length_gap(a, b.drop_last());
        law_lev_length_gap(a.drop_last(), b.drop_last());
    }
}

/// The distance never exceeds the longer length.
pub proof fn lemma_lev_bound<A>(a: Seq<A>, b: Seq<A>)
    ensures
        lev(a, b) <= (if a.len() < b.len() {
            b.len()
        } else {
            a.len()
        }),
    decreases a.len() + b.len(),
{
    if a.len() > 0 && b.len() > 0 {
        lemma_lev_bound(a.drop_last(), b.drop_last());
    }
}

/// The edit distance between two item sequences.
pub fn edit_distance<T: Symbol>(a: &[T], b: &[T]) -> (r: usize)
    requires
        a@.len() < usize::MAX,
        b@.len() < usize::MAX,
    ensures
        r == lev(views_of(a@), views_of(b@)),
{
    if a.len() == 0 {
        return b.len();
    }
    if b.len() == 0 {
        return a.len();
    }
    let swapped = a.len() > b.len();
    let (short, long) = if !swapped {
        (a, b)
    } else {
        (b, a)
    };
    let ghost sv = views_of(short@);
    let ghost lv = views_of(long@);
    let n = short.len();
    let mut prev: Vec<usize> = Vec::new();
    let mut j: usize = 0;
    while j <= n
        invariant
            j <= n + 1,
            n == short@.len(),
            n < usize::MAX,
            sv == views_of(short@),
            prev@.len() == j,
            forall|k: int| 0 <= k < j ==> prev@[k] == lev(lv.take(0), sv.take(k)),
        decreases n + 1 - j,
    {
        assert(lv.take(0).len() == 0);
        assert(sv.take(j as int).len() == j);
        assert(lev(lv.take(0), sv.take(j as int)) == j);
        prev.push(j);
        j += 1;
    }
    let mut curr: Vec<usize> = Vec::new();
    let mut j: usize = 0;
    while j <= n
        invariant
            j <= n + 1,
            n < usize::MAX,
            curr@.len() == j,
        decreases n + 1 - j,
    {
        curr.push(0);
        j += 1;
    }
    let mut i: usize = 0;
    while i < long.len()
        invariant
            i <= long@.len(),
            n == short@.len(),
            n <= long@.len(),
            long@.len() < usize::MAX,
            sv == views_of(short@),
            lv == views_of(long@),
            prev@.len() == n + 1,
            curr@.len() == n + 1,
            forall|k: int| 0 <= k <= n ==> #[trigger] prev@[k] == lev(lv.take(i as int), sv.take(k)),
        decreases long@.len() - i,
    {
        assert(lv.take(i + 1).len() > 0);
        assert(sv.take(0).len() == 0);
        curr.set(0, i + 1);
        let mut j: usize = 0;
        while j < n
            invariant
                i < long@.len(),
                j <= n,
                n == short@.len(),
                n <= long@.len(),
                long@.len() < usize::MAX,
                sv == views_of(short@),
                lv == views_of(long@),
                prev@.len() == n + 1,
                curr@.len() == n + 1,
                forall|k: int| 0 <= k <= n ==> #[trigger] prev@[k] == lev(lv.take(i as int), sv.take(k)),
                forall|k: int| 0 <= k <= j ==> #[trigger] curr@[k] == lev(lv.take(i + 1), sv.take(k)),
            decreases n - j,
        {
            let ghost x = lv.take(i + 1);
            let ghost y = sv.take(j + 1);
            assert(x.drop_last() =~= lv.take(i as int));
            assert(y.drop_last() =~= sv.take(j as int));
            assert(x.last() == long@[i as int]@);
            assert(y.last() == short@[j as int]@);
            proof {
                lemma_lev_bound(lv.take(i as int), sv.take(j + 1));
                lemma_lev_bound(x, sv.take(j as int));
                lemma_lev_bound(lv.take(i as int), sv.take(j as int));
            }
            let cost: usize = if long[i].same(&short[j]) {
                0
            } else {
                1
            };
            let deletion = prev[j + 1] + 1;
            let insertion = curr[j] + 1;
            let substitution = prev[j] + cost;
            let m = if deletion < insertion {
                deletion
            } else {
                insertion
            };
            let m = if m < substitution {
                m
            } else {
                substitution
            };
            curr.set(j + 1, m);
            j += 1;
        }
        let tmp = prev;
        prev = curr;
        curr = tmp;
        i += 1;
    }
    assert(lv.take(long@.len() as int) =~= lv);
    assert(sv.take(n as int) =~= sv);
    proof {
        if !swapped {
            law_lev_symmetric(lv, sv);
        }
    }
    prev[n]
}

/// An error count: edits against the length of the reference.
#[derive(Clone, Copy, Debug, PartialEq, Eq, Structural)]
pub struct ErrorCounts {
    pub distance: usize,
    pub reference_len: usize,
}

/// A character kept by the accuracy normalisation: alphanumeric or an apostrophe.
pub open spec fn accuracy_keeps(c: char) -> bool {
    is_alnum(c) || c == '\''
}

/// Each lowercased character kept, others turned into spaces.
pub open spec fn spaced_lower(s: Seq<char>) -> Seq<char>
    decreases s.len(),
{
    if s.len() == 0 {
        seq![]
    } else {
        spaced_lower(s.drop_last()) + lower_chars(s.last()).map_values(
            |l: char|
                if accuracy_keeps(l) {
                    l
                } else {
                    ' '
                },
        )
    }
}

/// The kept characters of a sequence.
pub open spec fn kept_only(s: Seq<char>) -> Seq<char>
    decreases s.len(),
{
    if s.len() == 0 {
        seq![]
    } else if accuracy_keeps(s.last()) {
        kept_only(s.drop_last()).push(s.last())
    } else {
        kept_only(s.drop_last())
    }
}

/// Whether every character is an ASCII letter, an ASCII digit or an apostrophe.
pub open spec fn ascii_word_chars(s: Seq<char>) -> bool {
    forall|i: int| 0 <= i < s.len() ==> is_ascii_alnum(#[trigger] s[i]) || s[i] == '\''
}

/// The accuracy normalisation of words keeps every ASCII letter, digit and
/// apostrophe, lowercased, and every space: a text made of them and spaces
/// becomes the same text lowercased, so its words are the text's own words.
pub proof fn law_accuracy_words_keep_ascii_alphanumerics(s: Seq<char>)
    requires
        forall|i: int|
            0 <= i < s.len() ==> is_ascii_alnum(#[trigger] s[i]) || s[i] == '\'' || s[i] == ' ',
    ensures
        spaced_lower(s) == s.map_values(|c: char| ascii_lower(c)),
    decreases s.len(),
{
    if s.len() > 0 {
        let p = s.drop_last();
        law_accuracy_words_keep_ascii_alphanumerics(p);
        let c = s.last();
        assert(lower_chars(c) == seq![ascii_lower(c)]);
        assert(is_ascii_alnum(c) ==> is_ascii_alnum(ascii_lower(c)));
        assert(s.map_values(|c: char| ascii_lower(c)) =~= p.map_values(|c: char| ascii_lower(c)).push(
            ascii_lower(c),
        ));
    } else {
        assert(s.map_values(|c: char| ascii_lower(c)) =~= Seq::<char>::empty());
    }
}

/// The accuracy normalisation of characters keeps every ASCII letter, digit
/// and apostrophe, lowercased.
pub proof fn law_accuracy_chars_keep_ascii_alphanumerics(s: Seq<char>)
    requires
        ascii_word_chars(s),
    ensures
        kept_lower(s) == s.map_values(|c: char| ascii_lower(c)),
    decreases s.len(),
{
    if s.len() > 0 {
        let p = s.drop_last();
        assert(ascii_word_chars(p)) by {
            assert forall|i: int| 0 <= i < p.len() implies is_ascii_alnum(#[trigger] p[i]) || p[i]
                == '\'' by {
                assert(p[i] == s[i]);
            }
        }
        law_accuracy_chars_keep_ascii_alphanumerics(p);
        let c = s.last();
        assert(lower_chars(c) == seq![ascii_lower(c)]);
        assert(is_ascii_alnum(c) ==> is_ascii_alnum(ascii_lower(c)));
        let one = seq![ascii_lower(c)];
        assert(ascii_lower(c) <= '\u{7f}');
        assert(accuracy_keeps(ascii_lower(c)));
        assert(one.drop_last() =~= Seq::<char>::empty());
        assert(one.last() == ascii_lower(c));
        assert(kept_only(one.drop_last()) == Seq::<char>::empty());
        assert(kept_only(one) =~= seq![ascii_lower(c)]);
        assert(s.map_values(|c: char| ascii_lower(c)) =~= p.map_values(|c: char| ascii_lower(c)).push(
            ascii_lower(c),
        ));
    } else {
        assert(s.map_values(|c: char| ascii_lower(c)) =~= Seq::<char>::empty());
    }
}

/// Each character lowercased, then only the kept ones.
pub open spec fn kept_lower(s: Seq<char>) -> Seq<char>
    decreases s.len(),
{
    if s.len() == 0 {
        seq![]
    } else {
        kept_lower(s.drop_last()) + kept_only(lower_chars(s.last()))
    }
}

/// The words of a text for word error rate: lowercase, apostrophes kept,
/// other punctuation a separator.
pub fn tokenize_words(text: &str) -> (r: Vec<String>)
    ensures
        r@.map_values(|w: String| w@) == words(spaced_lower(text@)),
{
    let v = to_chars(text);
    let mut normalized: Vec<char> = Vec::new();
    let mut i: usize = 0;
    while i < v.len()
        invariant
            i <= v@.len(),
            normalized@ == spaced_lower(v@.take(i as int)),
        decreases v@.len() - i,
    {
        assert(v@.take(i + 1).drop_last() =~= v@.take(i as int));
        assert(v@.take(i + 1).last() == v@[i as int]);
        let lowers = char_to_lowercase_chars(v[i]);
        let ghost base = normalized@;
        let mut k: usize = 0;
        while k < lowers.len()
            invariant
                k <= lowers@.len(),
                normalized@ == base + lowers@.take(k as int).map_values(
                    |l: char|
                        if accuracy_keeps(l) {
                            l
                        } else {
                            ' '
                        },
                ),
            decreases lowers@.len() - k,
        {
            let l = lowers[k];
            if is_alphanumeric(l) || l == '\'' {
                normalized.push(l);
            } else {
                normalized.push(' ');
            }
            assert(lowers@.take(k + 1) =~= lowers@.take(k as int).push(l));
            assert(normalized@ =~= base + lowers@.take(k + 1).map_values(
                |l: char|
                    if accuracy_keeps(l) {
                        l
                    } else {
                        ' '
                    },
            ));
            k += 1;
        }
        assert(lowers@.take(lowers@.len() as int) =~= lowers@);
        i += 1;
    }
    assert(v@.take(v@.len() as int) =~= v@);
    let ws = split_whitespace(normalized.as_slice());
    let ghost w = words(normalized@);
    let mut out: Vec<String> = Vec::new();
    let mut j: usize = 0;
    while j < ws.len()
        invariant
            j <= ws@.len(),
            ws@.map_values(|x: Vec<char>| x@) == w,
            out@.map_values(|s: String| s@) == w.take(j as int),
        decreases ws@.len() - j,
    {
        assert(ws@[j as int]@ == w[j as int]);
        let ghost before = out@;
        let word = from_chars(ws[j].as_slice());
        out.push(word);
        assert(out@ == before.push(word));
        assert(out@.map_values(|s: String| s@) =~= before.map_values(|s: String| s@).push(word@));
        assert(w.take(j + 1) =~= w.take(j as int).push(w[j as int]));
        j += 1;
    }
    assert(w.take(w.len() as int) =~= w);
    out
}

/// The characters of a text for character error rate: lowercase, only
/// alphanumerics and apostrophes.
pub fn normalize_chars(text: &str) -> (r: Vec<char>)
    ensures
        r@ == kept_lower(text@),
{
    let v = to_chars(text);
    let mut out: Vec<char> = Vec::new();
    let mut i: usize = 0;
    while i < v.len()
        invariant
            i <= v@.len(),
            out@ == kept_lower(v@.take(i as int)),
        decreases v@.len() - i,
    {
        assert(v@.take(i + 1).drop_last() =~= v@.take(i as int));
        assert(v@.take(i + 1).last() == v@[i as int]);
        let lowers = char_to_lowercase_chars(v[i]);
        let ghost base = out@;
        let mut k: usize = 0;
        while k < lowers.len()
            invariant
                k <= lowers@.len(),
                out@ == base + kept_only(lowers@.take(k as int)),
            decreases lowers@.len() - k,
        {
            let l = lowers[k];
            assert(lowers@.take(k + 1).drop_last() =~= lowers@.take(k as int));
            assert(lowers@.take(k + 1).last() == l);
            if is_alphanumeric(l) || l == '\'' {
                out.push(l);
            }
            assert(out@ =~= base + kept_only(lowers@.take(k + 1)));
            k += 1;
        }
        assert(lowers@.take(lowers@.len() as int) =~= lowers@);
        i += 1;
    }
    assert(v@.take(v@.len() as int) =~= v@);
    out
}

/// The word errors of a hypothesis against a reference; none for a
/// reference without words.
pub open spec fn wer_spec(reference: Seq<char>, hypothesis: Seq<char>) -> Option<ErrorCounts> {
    let rw = words(spaced_lower(reference));
    let hw = words(spaced_lower(hypothesis));
    if rw.len() == 0 {
        None
    } else {
        Some(ErrorCounts { distance: lev(rw, hw) as usize, reference_len: rw.len() as usize })
    }
}

/// The character errors of a hypothesis against a reference; none for a
/// reference without characters.
pub open spec fn cer_spec(reference: Seq<char>, hypothesis: Seq<char>) -> Option<ErrorCounts> {
    let rc = kept_lower(reference);
    let hc = kept_lower(hypothesis);
    if rc.len() == 0 {
        None
    } else {
        Some(ErrorCounts { distance: lev(rc, hc) as usize, reference_len: rc.len() as usize })
    }
}

/// The counts of two token sequences; none for an empty reference.
fn error_counts<T: Symbol>(reference: &[T], hypothesis: &[T]) -> (r: Option<ErrorCounts>)
    requires
        reference@.len() < usize::MAX,
        hypothesis@.len() < usize::MAX,
    ensures
        r == (if reference@.len() == 0 {
            None
        } else {
            Some(
                ErrorCounts {
                    distance: lev(views_of(reference@), views_of(hypothesis@)) as usize,
                    reference_len: reference@.len() as usize,
                },
            )
        }),
{
    if reference.len() == 0 {
        return None;
    }
    let distance = edit_distance(reference, hypothesis);
    Some(ErrorCounts { distance, reference_len: reference.len() })
}

/// Word errors of a hypothesis against a reference; none for a reference without words.
pub fn compute_wer(reference: &str, hypothesis: &str) -> (r: Option<ErrorCounts>)
    requires
        words(spaced_lower(reference@)).len() < usize::MAX,
        words(spaced_lower(hypothesis@)).len() < usize::MAX,
    ensures
        r == wer_spec(reference@, hypothesis@),
{
    let reference_tokens = tokenize_words(reference);
    let hypothesis_tokens = tokenize_words(hypothesis);
    assert(views_of(reference_tokens@) =~= reference_tokens@.map_values(|w: String| w@));
    assert(views_of(hypothesis_tokens@) =~= hypothesis_tokens@.map_values(|w: String| w@));
    error_counts(reference_tokens.as_slice(), hypothesis_tokens.as_slice())
}

/// Word errors as `compute_wer` gives them, with the word counts checked
/// at run time: `None` when either text has `usize::MAX` words or more.
pub fn compute_wer_checked(reference: &str, hypothesis: &str) -> (r: Option<Option<ErrorCounts>>)
    ensures
        (words(spaced_lower(reference@)).len() < usize::MAX && words(
            spaced_lower(hypothesis@),
        ).len() < usize::MAX) ==> r == Some(wer_spec(reference@, hypothesis@)),
        !(words(spaced_lower(reference@)).len() < usize::MAX && words(
            spaced_lower(hypothesis@),
        ).len() < usize::MAX) ==> r is None,
{
    let reference_tokens = tokenize_words(reference);
    let hypothesis_tokens = tokenize_words(hypothesis);
    if reference_tokens.len() == usize::MAX || hypothesis_tokens.len() == usize::MAX {
        return None;
    }
    Some(compute_wer(reference, hypothesis))
}

/// Character errors of a hypothesis against a reference; none for a reference without characters.
pub fn compute_cer(reference: &str, hypothesis: &str) -> (r: Option<ErrorCounts>)
    requires
        kept_lower(reference@).len() < usize::MAX,
        kept_lower(hypothesis@).len() < usize::MAX,
    ensures
        r == cer_spec(reference@, hypothesis@),
{
    let reference_chars = normalize_chars(reference);
    let hypothesis_chars = normalize_chars(hypothesis);
    assert(views_of(reference_chars@) =~= reference_chars@);
    assert(views_of(hypothesis_chars@) =~= hypothesis_chars@);
    error_counts(reference_chars.as_slice(), hypothesis_chars.as_slice())
}

/// Character errors as `compute_cer` gives them, with the character counts
/// checked at run time: `None` when either text keeps `usize::MAX`
/// characters or more.
pub fn compute_cer_checked(reference: &str, hypothesis: &str) -> (r: Option<Option<ErrorCounts>>)
    ensures
        (kept_lower(reference@).len() < usize::MAX && kept_lower(hypothesis@).len() < usize::MAX)
            ==> r == Some(cer_spec(reference@, hypothesis@)),
        !(kept_lower(reference@).len() < usize::MAX && kept_lower(hypothesis@).len()
            < usize::MAX) ==> r is None,
{
    let reference_chars = normalize_chars(reference);
    let hypothesis_chars = normalize_chars(hypothesis);
    if reference_chars.len() == usize::MAX || hypothesis_chars.len() == usize::MAX {
        return None;
    }
    Some(compute_cer(reference, hypothesis))
}

} // verus!
