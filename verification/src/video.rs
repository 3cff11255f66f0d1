//! Video decoding and encoding through ffmpeg child processes: the command
//! lines, and what the outcome of each read, write and exit means.
//!
//! Decoding: ffmpeg converts the input file to raw RGB24 frames on stdout.
//! Encoding: processed RGB24 frames are written to ffmpeg's stdin and encoded
//! to H.264 (audio from the source is copied over when present).
use crate::text::{
    chars_of, decimal, is_digit, law_decimal_reads_back, lemma_decimal, parsed, texts, to_decimal,
};
use vstd::prelude::*;
use vstd::string::{StrSliceExecFns, StringExecFns};

verus! {

/// An ASCII capital as the small letter; any other character as it is.
pub open spec fn small(c: char) -> char {
    if 'A' <= c <= 'Z' {
        (c as int + 32) as char
    } else {
        c
    }
}

/// `s` ends with `tail`, capitals and small letters taken as equal. (The
/// small form of no character but an ASCII letter is an ASCII letter of the
/// names looked for here.)
pub open spec fn ends_with_any_case(s: Seq<char>, tail: Seq<char>) -> bool {
    &&& s.len() >= tail.len()
    &&& forall|i: int|
        0 <= i < tail.len() ==> small(s[s.len() - tail.len() + i]) == #[trigger] tail[i]
}

/// `s` ends with `tail`.
pub open spec fn ends_with(s: Seq<char>, tail: Seq<char>) -> bool {
    &&& s.len() >= tail.len()
    &&& s.skip(s.len() - tail.len()) == tail
}

/// The ffprobe that belongs to an ffmpeg binary: the same path with the file
/// name replaced, or a plain `ffprobe` if the name is another.
pub open spec fn ffprobe_for(ffmpeg: Seq<char>) -> Seq<char> {
    if ends_with_any_case(ffmpeg, "ffmpeg.exe"@) {
        ffmpeg.take(ffmpeg.len() - 10) + "ffprobe.exe"@
    } else if ends_with(ffmpeg, "ffmpeg"@) {
        ffmpeg.take(ffmpeg.len() - 6) + "ffprobe"@
    } else {
        "ffprobe"@
    }
}

fn has_tail_any_case(v: &Vec<char>, tail: &str) -> (yes: bool)
    ensures
        yes == ends_with_any_case(v@, tail@),
{
    let t = chars_of(tail);
    if v.len() < t.len() {
        return false;
    }
    let skip: usize = v.len() - t.len();
    let mut i: usize = 0;
    while i < t.len()
        invariant
            i <= t.len(),
            t@ == tail@,
            skip + t.len() == v.len(),
            forall|j: int| 0 <= j < i ==> small(v@[skip + j]) == #[trigger] tail@[j],
        decreases t.len() - i,
    {
        let c: char = v[skip + i];
        let s: char = if 'A' <= c && c <= 'Z' {
            small_letter(c)
        } else {
            c
        };
        if s != t[i] {
            assert(small(v@[v@.len() - tail@.len() + i]) != tail@[i as int]);
            return false;
        }
        i += 1;
    }
    true
}

fn small_letter(c: char) -> (s: char)
    requires
        'A' <= c <= 'Z',
    ensures
        s == small(c),
{
    let n: u8 = c as u8 + 32;
    n as char
}

fn has_tail(v: &Vec<char>, tail: &str) -> (yes: bool)
    ensures
        yes == ends_with(v@, tail@),
{
    let t = chars_of(tail);
    if v.len() < t.len() {
        return false;
    }
    let skip: usize = v.len() - t.len();
    let mut i: usize = 0;
    while i < t.len()
        invariant
            i <= t.len(),
            t@ == tail@,
            skip + t.len() == v.len(),
            forall|j: int| 0 <= j < i ==> v@[skip + j] == #[trigger] tail@[j],
        decreases t.len() - i,
    {
        if v[skip + i] != t[i] {
            assert(v@.skip(skip as int)[i as int] != tail@[i as int]);
            return false;
        }
        i += 1;
    }
    assert(v@.skip(skip as int) =~= tail@);
    true
}

/// Locate ffprobe next to the chosen ffmpeg binary (same package family).
pub fn ffprobe_name(ffmpeg: &str) -> (name: String)
    ensures
        name@ == ffprobe_for(ffmpeg@),
{
    proof {
        reveal_strlit("ffmpeg.exe");
        reveal_strlit("ffmpeg");
    }
    let v = chars_of(ffmpeg);
    let n: usize = v.len();
    if has_tail_any_case(&v, "ffmpeg.exe") {
        let mut name = ffmpeg.substring_char(0, n - 10).to_owned();
        assert(name@ =~= ffmpeg@.take(n - 10));
        name.append("ffprobe.exe");
        name
    } else if has_tail(&v, "ffmpeg") {
        let mut name = ffmpeg.substring_char(0, n - 6).to_owned();
        assert(name@ =~= ffmpeg@.take(n - 6));
        name.append("ffprobe");
        name
    } else {
        "ffprobe".to_owned()
    }
}

/// ffprobe is looked for in the directory of the ffmpeg binary: whatever
/// stands before the file name is kept.
pub proof fn law_ffprobe_stays_in_directory(dir: Seq<char>)
    ensures
        ffprobe_for(dir + "ffmpeg"@) == dir + "ffprobe"@,
        ffprobe_for(dir + "ffmpeg.exe"@) == dir + "ffprobe.exe"@,
        ffprobe_for(dir + "FFMPEG.EXE"@) == dir + "ffprobe.exe"@,
{
    reveal_strlit("ffmpeg.exe");
    reveal_strlit("FFMPEG.EXE");
    reveal_strlit("ffmpeg");
    let plain = dir + "ffmpeg"@;
    let exe = dir + "ffmpeg.exe"@;
    let caps = dir + "FFMPEG.EXE"@;
    assert(plain.skip(plain.len() - 6) =~= "ffmpeg"@);
    assert(plain.take(plain.len() - 6) =~= dir);
    if ends_with_any_case(plain, "ffmpeg.exe"@) {
        assert(small(plain[plain.len() - 10 + 9]) == "ffmpeg.exe"@[9]);
        assert(plain[plain.len() - 1] == "ffmpeg"@[5]);
    }
    assert(exe.take(exe.len() - 10) =~= dir);
    assert(caps.take(caps.len() - 10) =~= dir);
}

/// What went wrong with a child process.
#[derive(Debug, Clone, Copy, PartialEq, Eq, Structural)]
pub enum VideoError {
    /// A frame could not be read.
    ReadFailed,
    /// The decoder exited with a failure.
    DecoderExit,
    /// The encoder takes no more frames.
    AlreadyFinished,
    /// The encoder closed its end of the pipe.
    PipeClosed,
    /// A frame could not be written.
    WriteFailed,
    /// The encoder exited with a failure.
    EncoderExit,
}

/// How an attempt to fill a frame buffer ended.
#[derive(Debug, Clone, Copy, PartialEq, Eq, Structural)]
pub enum ReadOutcome {
    /// The buffer holds a whole frame.
    Filled,
    /// The stream ended before the buffer was full.
    UnexpectedEof,
    /// Any other error.
    Failed,
}

/// How an attempt to write a frame ended.
#[derive(Debug, Clone, Copy, PartialEq, Eq, Structural)]
pub enum WriteOutcome {
    /// All of the frame was written.
    Written,
    /// The reader had gone.
    BrokenPipe,
    /// Any other error.
    Failed,
}

/// Copies a list of words.
fn strings(words: &Vec<&str>) -> (out: Vec<String>)
    ensures
        texts(out@) == Seq::new(words@.len(), |i: int| words@[i]@),
{
    let mut out: Vec<String> = Vec::new();
    let mut i: usize = 0;
    while i < words.len()
        invariant
            i <= words.len(),
            out.len() == i,
            forall|j: int| 0 <= j < i ==> (#[trigger] out@[j])@ == words@[j]@,
        decreases words.len() - i,
    {
        out.push(words[i].to_owned());
        i += 1;
    }
    assert(texts(out@) =~= Seq::new(words@.len(), |i: int| words@[i]@));
    out
}

/// The ffprobe options; the input file follows.
pub open spec fn probe_options() -> Seq<Seq<char>> {
    seq![
        "-v"@,
        "error"@,
        "-select_streams"@,
        "v:0"@,
        "-show_entries"@,
        "stream=width,height,r_frame_rate,avg_frame_rate,nb_frames,duration"@,
        "-of"@,
        "default=noprint_wrappers=1"@,
    ]
}

/// The options that make ffprobe report one `key=value` line per field; the
/// input file follows.
pub fn probe_args() -> (args: Vec<String>)
    ensures
        texts(args@) == probe_options(),
{
    let args = strings(
        &vec![
            "-v",
            "error",
            "-select_streams",
            "v:0",
            "-show_entries",
            "stream=width,height,r_frame_rate,avg_frame_rate,nb_frames,duration",
            "-of",
            "default=noprint_wrappers=1",
        ],
    );
    assert(texts(args@) =~= probe_options());
    args
}

/// Streaming decoder: an ffmpeg that writes RGB24 frames to its stdout.
pub struct Decoder {
    pub program: String,
    /// Options before the input file.
    pub before_input: Vec<String>,
    /// Options after the input file.
    pub after_input: Vec<String>,
}

/// The decoder options before the input file.
pub open spec fn decode_options_before() -> Seq<Seq<char>> {
    seq!["-hide_banner"@, "-loglevel"@, "error"@, "-i"@]
}

/// The decoder options after the input file.
pub open spec fn decode_options_after() -> Seq<Seq<char>> {
    seq!["-f"@, "rawvideo"@, "-pix_fmt"@, "rgb24"@, "pipe:1"@]
}

impl Decoder {
    /// The command line of a decoder.
    pub fn new(ffmpeg: &str) -> (dec: Decoder)
        ensures
            dec.program@ == ffmpeg@,
            texts(dec.before_input@) == decode_options_before(),
            texts(dec.after_input@) == decode_options_after(),
    {
        let before_input = strings(&vec!["-hide_banner", "-loglevel", "error", "-i"]);
        let after_input = strings(&vec!["-f", "rawvideo", "-pix_fmt", "rgb24", "pipe:1"]);
        assert(texts(before_input@) =~= decode_options_before());
        assert(texts(after_input@) =~= decode_options_after());
        Decoder { program: ffmpeg.to_owned(), before_input, after_input }
    }

    /// Whether a read gave a frame. False at the end of the stream.
    pub fn read_frame(&self, outcome: ReadOutcome) -> (got: Result<bool, VideoError>)
        ensures
            got == (match outcome {
                ReadOutcome::Filled => Ok::<bool, VideoError>(true),
                ReadOutcome::UnexpectedEof => Ok(false),
                ReadOutcome::Failed => Err(VideoError::ReadFailed),
            }),
    {
        match outcome {
            ReadOutcome::Filled => Ok(true),
            ReadOutcome::UnexpectedEof => Ok(false),
            ReadOutcome::Failed => Err(VideoError::ReadFailed),
        }
    }

    /// What the exit of the decoder means.
    pub fn finish(self, success: bool) -> (end: Result<(), VideoError>)
        ensures
            end == (if success {
                Ok::<(), VideoError>(())
            } else {
                Err(VideoError::DecoderExit)
            }),
    {
        if !success {
            return Err(VideoError::DecoderExit);
        }
        Ok(())
    }
}

/// Streaming encoder: an ffmpeg that takes RGB24 frames on its stdin and
/// writes an H.264 MP4.
pub struct Encoder {
    pub program: String,
    /// Options before the input file, which lends its audio.
    pub before_input: Vec<String>,
    /// Options between the input file and the output file.
    pub before_output: Vec<String>,
    /// Whether the pipe to the child is still there.
    pub stdin_open: bool,
}

/// The encoder options before the input file.
pub open spec fn encode_options_before(w: int, h: int, fps: Seq<char>) -> Seq<Seq<char>> {
    seq![
        "-hide_banner"@,
        "-loglevel"@,
        "error"@,
        "-y"@,
        "-thread_queue_size"@,
        "512"@,
        "-f"@,
        "rawvideo"@,
        "-pix_fmt"@,
        "rgb24"@,
        "-s"@,
        decimal(w) + "x"@ + decimal(h),
        "-r"@,
        fps,
        "-i"@,
        "pipe:0"@,
        "-thread_queue_size"@,
        "512"@,
        "-i"@,
    ]
}

/// The encoder options between the input file and the output file.
pub open spec fn encode_options_after(preset: Seq<char>, crf: int) -> Seq<Seq<char>> {
    seq![
        "-map"@,
        "0:v:0"@,
        "-map"@,
        "1:a?"@,
        "-c:v"@,
        "libx264"@,
        "-preset"@,
        preset,
        "-crf"@,
        decimal(crf),
        "-pix_fmt"@,
        "yuv420p"@,
        "-c:a"@,
        "aac"@,
        "-movflags"@,
        "+faststart"@,
    ]
}

impl Encoder {
    /// The command line of an encoder. `fps` is the frame rate as text.
    pub fn new(
        ffmpeg: &str,
        width: usize,
        height: usize,
        fps: &str,
        crf: u8,
        preset: &str,
    ) -> (enc: Encoder)
        ensures
            enc.program@ == ffmpeg@,
            texts(enc.before_input@) == encode_options_before(width as int, height as int, fps@),
            texts(enc.before_output@) == encode_options_after(preset@, crf as int),
            enc.stdin_open,
    {
        let mut size = to_decimal(width as u64);
        size.append("x");
        size.append(to_decimal(height as u64).as_str());
        let quality = to_decimal(crf as u64);
        let before_input = strings(
            &vec![
                "-hide_banner",
                "-loglevel",
                "error",
                "-y",
                "-thread_queue_size",
                "512",
                "-f",
                "rawvideo",
                "-pix_fmt",
                "rgb24",
                "-s",
                size.as_str(),
                "-r",
                fps,
                "-i",
                "pipe:0",
                "-thread_queue_size",
                "512",
                "-i",
            ],
        );
        let before_output = strings(
            &vec![
                "-map",
                "0:v:0",
                "-map",
                "1:a?",
                "-c:v",
                "libx264",
                "-preset",
                preset,
                "-crf",
                quality.as_str(),
                "-pix_fmt",
                "yuv420p",
                "-c:a",
                "aac",
                "-movflags",
                "+faststart",
            ],
        );
        assert(texts(before_input@) =~= encode_options_before(width as int, height as int, fps@));
        assert(texts(before_output@) =~= encode_options_after(preset@, crf as int));
        Encoder { program: ffmpeg.to_owned(), before_input, before_output, stdin_open: true }
    }

    /// What the outcome of writing a frame means.
    pub fn write_frame(&self, outcome: WriteOutcome) -> (done: Result<(), VideoError>)
        ensures
            done == (if !self.stdin_open {
                Err::<(), VideoError>(VideoError::AlreadyFinished)
            } else {
                match outcome {
                    WriteOutcome::Written => Ok(()),
                    WriteOutcome::BrokenPipe => Err(VideoError::PipeClosed),
                    WriteOutcome::Failed => Err(VideoError::WriteFailed),
                }
            }),
    {
        if !self.stdin_open {
            return Err(VideoError::AlreadyFinished);
        }
        match outcome {
            WriteOutcome::Written => Ok(()),
            WriteOutcome::BrokenPipe => Err(VideoError::PipeClosed),
            WriteOutcome::Failed => Err(VideoError::WriteFailed),
        }
    }

    /// What the exit of the encoder means.
    pub fn finish(self, success: bool) -> (end: Result<(), VideoError>)
        ensures
            end == (if success {
                Ok::<(), VideoError>(())
            } else {
                Err(VideoError::EncoderExit)
            }),
    {
        if !success {
            return Err(VideoError::EncoderExit);
        }
        Ok(())
    }
}

/// Every word after the option `name` satisfies `good`, and there is one; a word
/// that is itself the value of the option `but` does not count as a name.
pub open spec fn has_option(
    words: Seq<Seq<char>>,
    name: Seq<char>,
    but: Seq<char>,
    good: spec_fn(Seq<char>) -> bool,
) -> bool {
    &&& exists|i: int| 0 <= i < words.len() - 1 && #[trigger] words[i] == name && good(words[i + 1])
    &&& forall|i: int|
        0 <= i < words.len() && #[trigger] words[i] == name && !(i > 0 && words[i - 1] == but)
            ==> i < words.len() - 1 && good(words[i + 1])
}

/// Two lists of words agree, but for the words that follow the names `a` and `b`.
pub open spec fn same_but_values(
    x: Seq<Seq<char>>,
    y: Seq<Seq<char>>,
    a: Seq<char>,
    b: Seq<char>,
) -> bool {
    &&& x.len() == y.len()
    &&& forall|i: int|
        0 <= i < x.len() && #[trigger] x[i] != y[i] ==> i > 0 && (x[i - 1] == a || x[i - 1] == b)
}

/// The encoder is told the quality and the preset that were asked for: the word
/// after `-crf` reads back as the quality, whatever it is, and the word after
/// `-preset` is the preset.
pub proof fn law_encoder_is_told_the_quality(
    ffmpeg: &str,
    width: usize,
    height: usize,
    fps: &str,
    crf: u8,
    preset: &str,
    enc: Encoder,
)
    requires
        call_ensures(Encoder::new, (ffmpeg, width, height, fps, crf, preset), enc),
    ensures
        enc.program@ == ffmpeg@,
        enc.stdin_open,
        has_option(
            texts(enc.before_output@),
            "-crf"@,
            "-preset"@,
            |word: Seq<char>| parsed(word, u8::MAX as int) == Some(crf as int),
        ),
        has_option(
            texts(enc.before_output@),
            "-preset"@,
            "-preset"@,
            |word: Seq<char>| word == preset@,
        ),
{
    let ws = texts(enc.before_output@);
    reveal_strlit("-map");
    reveal_strlit("0:v:0");
    reveal_strlit("1:a?");
    reveal_strlit("-c:v");
    reveal_strlit("libx264");
    reveal_strlit("-preset");
    reveal_strlit("-crf");
    reveal_strlit("-pix_fmt");
    reveal_strlit("yuv420p");
    reveal_strlit("-c:a");
    reveal_strlit("aac");
    reveal_strlit("-movflags");
    reveal_strlit("+faststart");
    law_decimal_reads_back(crf as int, u8::MAX as int);
    lemma_decimal(crf as int);
    assert(ws[8] == "-crf"@);
    assert(ws[6] == "-preset"@);
    assert forall|i: int|
        0 <= i < ws.len() && #[trigger] ws[i] == "-crf"@ && !(i > 0 && ws[i - 1] == "-preset"@)
        implies i == 8 by {
        assert(ws[i].len() == 4 && ws[i][2] == 'r');
        if i == 9 {
            assert(is_digit(ws[9][0]));
        }
    }
    assert forall|i: int|
        0 <= i < ws.len() && #[trigger] ws[i] == "-preset"@ && !(i > 0 && ws[i - 1]
            == "-preset"@) implies i == 6 by {
        assert(ws[i].len() == 7 && ws[i][1] == 'p');
        if i == 9 {
            assert(is_digit(ws[9][0]));
        }
    }
}

/// A frame size as text: two decimal numbers with an `x` between them.
pub open spec fn is_size(word: Seq<char>, w: int, h: int) -> bool {
    exists|a: Seq<char>, b: Seq<char>|
        word == a + seq!['x'] + b && #[trigger] parsed(a, usize::MAX as int) == Some(w)
            && #[trigger] parsed(b, usize::MAX as int) == Some(h)
}

/// The encoder is told the size and the rate of the frames that it gets: the
/// word after `-s` reads back as the width and the height, and the word after
/// `-r` is the rate.
pub proof fn law_encoder_is_told_the_format(
    ffmpeg: &str,
    width: usize,
    height: usize,
    fps: &str,
    crf: u8,
    preset: &str,
    enc: Encoder,
)
    requires
        call_ensures(Encoder::new, (ffmpeg, width, height, fps, crf, preset), enc),
    ensures
        has_option(
            texts(enc.before_input@),
            "-s"@,
            "-r"@,
            |word: Seq<char>| is_size(word, width as int, height as int),
        ),
        has_option(texts(enc.before_input@), "-r"@, "-r"@, |word: Seq<char>| word == fps@),
        texts(enc.before_input@).last() == "-i"@,
{
    let ws = texts(enc.before_input@);
    reveal_strlit("-hide_banner");
    reveal_strlit("-loglevel");
    reveal_strlit("error");
    reveal_strlit("-y");
    reveal_strlit("-thread_queue_size");
    reveal_strlit("512");
    reveal_strlit("-f");
    reveal_strlit("rawvideo");
    reveal_strlit("-pix_fmt");
    reveal_strlit("rgb24");
    reveal_strlit("-s");
    reveal_strlit("x");
    reveal_strlit("-r");
    reveal_strlit("-i");
    reveal_strlit("pipe:0");
    let (a, b) = (decimal(width as int), decimal(height as int));
    law_decimal_reads_back(width as int, usize::MAX as int);
    law_decimal_reads_back(height as int, usize::MAX as int);
    lemma_decimal(width as int);
    assert("x"@ =~= seq!['x']);
    assert(parsed(a, usize::MAX as int) == Some(width as int));
    assert(parsed(b, usize::MAX as int) == Some(height as int));
    assert(ws[11] == a + seq!['x'] + b);
    assert(is_digit(ws[11][0])) by {
        assert(ws[11][0] == a[0]);
    }
    assert(ws[10] == "-s"@);
    assert(ws[12] == "-r"@);
    assert forall|i: int|
        0 <= i < ws.len() && #[trigger] ws[i] == "-s"@ && !(i > 0 && ws[i - 1] == "-r"@)
        implies i == 10 by {
        assert(ws[i].len() == 2 && ws[i][0] == '-' && ws[i][1] == 's');
    }
    assert forall|i: int|
        0 <= i < ws.len() && #[trigger] ws[i] == "-r"@ && !(i > 0 && ws[i - 1] == "-r"@)
        implies i == 12 by {
        assert(ws[i].len() == 2 && ws[i][0] == '-' && ws[i][1] == 'r');
    }
}

/// What the encoder is told besides does not depend on any of this: the options
/// of two encoders differ at most in the size, the rate, the preset and the
/// quality.
pub proof fn law_encoders_differ_in_their_settings_alone(
    p: (&str, usize, usize, &str, u8, &str),
    q: (&str, usize, usize, &str, u8, &str),
    x: Encoder,
    y: Encoder,
)
    requires
        call_ensures(Encoder::new, p, x),
        call_ensures(Encoder::new, q, y),
    ensures
        same_but_values(texts(x.before_input@), texts(y.before_input@), "-s"@, "-r"@),
        same_but_values(texts(x.before_output@), texts(y.before_output@), "-preset"@, "-crf"@),
{
}

/// Every decoder is told the same, whatever ffmpeg it runs.
pub proof fn law_decoders_are_alike(p: &str, q: &str, x: Decoder, y: Decoder)
    requires
        call_ensures(Decoder::new, (p,), x),
        call_ensures(Decoder::new, (q,), y),
    ensures
        x.program@ == p@,
        texts(x.before_input@) == texts(y.before_input@),
        texts(x.after_input@) == texts(y.after_input@),
        texts(x.before_input@).last() == "-i"@,
{
}

/// A read gives a frame exactly where it filled the buffer, and the end of the
/// stream is no error; any other failure is.
pub proof fn law_a_frame_is_a_full_buffer(
    dec: &Decoder,
    outcome: ReadOutcome,
    got: Result<bool, VideoError>,
)
    requires
        call_ensures(Decoder::read_frame, (dec, outcome), got),
    ensures
        got == Ok::<bool, VideoError>(true) <==> outcome is Filled,
        got is Err <==> outcome is Failed,
{
}

/// A frame counts as written exactly where all of it went into an open pipe;
/// otherwise the error says whether the pipe was closed before, by the other
/// end, or something else went wrong.
pub proof fn law_a_frame_is_written_or_refused(
    enc: &Encoder,
    outcome: WriteOutcome,
    done: Result<(), VideoError>,
)
    requires
        call_ensures(Encoder::write_frame, (enc, outcome), done),
    ensures
        done is Ok <==> enc.stdin_open && outcome is Written,
        done == Err::<(), VideoError>(VideoError::AlreadyFinished) <==> !enc.stdin_open,
        done == Err::<(), VideoError>(VideoError::PipeClosed) <==> enc.stdin_open
            && outcome is BrokenPipe,
        done == Err::<(), VideoError>(VideoError::WriteFailed) <==> enc.stdin_open
            && outcome is Failed,
{
}

/// A child process that failed is an error, one that did not is none.
pub proof fn law_exits_are_told_apart(
    dec: Decoder,
    enc: Encoder,
    success: bool,
    x: Result<(), VideoError>,
    y: Result<(), VideoError>,
)
    requires
        call_ensures(Decoder::finish, (dec, success), x),
        call_ensures(Encoder::finish, (enc, success), y),
    ensures
        x is Ok <==> success,
        y is Ok <==> success,
        x != y || success,
{
}

/// The ffprobe that belongs to an ffmpeg: whatever stands before a file name
/// `ffmpeg`, or `ffmpeg.exe` in any mix of capitals, is kept, and any other name
/// is answered with plain `ffprobe`.
pub proof fn law_ffprobe_replaces_the_file_name(ffmpeg: &str, name: String)
    requires
        call_ensures(ffprobe_name, (ffmpeg,), name),
    ensures
        forall|dir: Seq<char>| ffmpeg@ == #[trigger] (dir + "ffmpeg"@) ==> name@ == dir
            + "ffprobe"@,
        forall|dir: Seq<char>, tail: Seq<char>|
            ffmpeg@ == #[trigger] (dir + tail) && tail.len() == 10 && tail.map_values(
                |c: char| small(c),
            ) == "ffmpeg.exe"@ ==> name@ == dir + "ffprobe.exe"@,
        name@ == "ffprobe"@ || exists|dir: Seq<char>, tail: Seq<char>|
            ffmpeg@ == #[trigger] (dir + tail) && (tail == "ffmpeg"@ && name@ == dir + "ffprobe"@
                || tail.map_values(|c: char| small(c)) == "ffmpeg.exe"@ && name@ == dir
                + "ffprobe.exe"@),
{
    reveal_strlit("ffmpeg.exe");
    reveal_strlit("ffmpeg");
    let f = ffmpeg@;
    assert forall|dir: Seq<char>| f == #[trigger] (dir + "ffmpeg"@) implies name@ == dir
        + "ffprobe"@ by {
        assert(f.skip(f.len() - 6) =~= "ffmpeg"@);
        assert(f.take(f.len() - 6) =~= dir);
        if ends_with_any_case(f, "ffmpeg.exe"@) {
            assert(small(f[f.len() - 10 + 9]) == "ffmpeg.exe"@[9]);
            assert(f[f.len() - 1] == "ffmpeg"@[5]);
        }
    }
    assert forall|dir: Seq<char>, tail: Seq<char>|
        f == #[trigger] (dir + tail) && tail.len() == 10 && tail.map_values(|c: char| small(c))
            == "ffmpeg.exe"@ implies name@ == dir + "ffprobe.exe"@ by {
        assert forall|i: int| 0 <= i < 10 implies small(f[f.len() - 10 + i])
            == #[trigger] "ffmpeg.exe"@[i] by {
            assert(tail.map_values(|c: char| small(c))[i] == small(tail[i]));
        }
        assert(f.take(f.len() - 10) =~= dir);
    }
    if ends_with_any_case(f, "ffmpeg.exe"@) {
        let (dir, tail) = (f.take(f.len() - 10), f.skip(f.len() - 10));
        assert(f =~= dir + tail);
        assert(tail.map_values(|c: char| small(c)) =~= "ffmpeg.exe"@) by {
            assert forall|i: int| 0 <= i < 10 implies small(tail[i])
                == #[trigger] "ffmpeg.exe"@[i] by {
                assert(tail[i] == f[f.len() - 10 + i]);
            }
        }
    } else if ends_with(f, "ffmpeg"@) {
        let (dir, tail) = (f.take(f.len() - 6), f.skip(f.len() - 6));
        assert(f =~= dir + tail);
    }
}

} // verus!
