use rsmb::levels::{auto_levels, half_side, pyramid_level_count};
use rsmb::pixels::{pack_frame, unpack_frame, unpack_words, word_bytes};
use rsmb::probe::{judge, parse_rate, probe, read_fields, ProbeError, RateError, Timing};
use rsmb::text::{chars_of, find, is_space, parse_unsigned, spells, to_decimal, trim};
use rsmb::video::{
    ffprobe_name, probe_args, Decoder, Encoder, ReadOutcome, VideoError, WriteOutcome,
};

/// Double precision rates.
struct Double;

impl Timing for Double {
    type F = f64;

    fn parse(&self, s: &str) -> Option<f64> {
        s.parse().ok()
    }

    fn ratio(&self, num: f64, den: f64) -> f64 {
        num / den
    }

    fn is_positive(&self, f: f64) -> bool {
        f > 0.0
    }

    fn frames(&self, seconds: f64, fps: f64) -> u64 {
        (seconds * fps).round() as u64
    }
}

const REPORT: &str = "width=1920\nheight=1080\nr_frame_rate=60/1\navg_frame_rate=30000/1001\nduration=6.006000\nnb_frames=180\n";

#[test]
fn a_full_report_is_read() {
    let info = probe(&Double, REPORT).unwrap();
    assert_eq!((info.width, info.height), (1920, 1080));
    assert_eq!(info.fps, 30000.0 / 1001.0);
    assert_eq!(info.total_frames, 180);
}

#[test]
fn the_order_of_the_lines_does_not_matter() {
    let mut lines: Vec<&str> = REPORT.lines().collect();
    lines.reverse();
    let info = probe(&Double, &lines.join("\n")).unwrap();
    assert_eq!((info.width, info.height, info.total_frames), (1920, 1080, 180));
    assert_eq!(info.fps, 30000.0 / 1001.0);
}

#[test]
fn unknown_lines_are_ignored() {
    let mut lines: Vec<&str> = REPORT.lines().collect();
    lines.rotate_left(2);
    lines.insert(1, "codec_name=h264");
    lines.insert(3, "[STREAM]");
    lines.push("Width=7");
    let info = probe(&Double, &lines.join("\n")).unwrap();
    assert_eq!((info.width, info.height, info.total_frames), (1920, 1080, 180));
    assert_eq!(info.fps, 30000.0 / 1001.0);
}

#[test]
fn the_nominal_rate_stands_in() {
    let text = "width=4\nheight=2\nr_frame_rate=25/1\navg_frame_rate=0/0\n";
    let info = probe(&Double, text).unwrap();
    assert_eq!(info.fps, 25.0);
    assert_eq!(info.total_frames, 0);
}

#[test]
fn the_duration_stands_in_for_the_frame_count() {
    let text = "width=4\nheight=2\nr_frame_rate=25\nnb_frames=N/A\nduration=2.03\n";
    assert_eq!(probe(&Double, text).unwrap().total_frames, 51);
    let text = "width=4\nheight=2\nr_frame_rate=25\nnb_frames=0\nduration=2\n";
    assert_eq!(probe(&Double, text).unwrap().total_frames, 50);
    let text = "width=4\nheight=2\nr_frame_rate=25\nduration=-1\n";
    assert_eq!(probe(&Double, text).unwrap().total_frames, 0);
}

#[test]
fn a_report_without_size_is_an_error() {
    for text in [
        "",
        "width=4\nr_frame_rate=25/1",
        "height=4\nr_frame_rate=25/1",
        "width=0\nheight=4\nr_frame_rate=25/1",
        "width=4\nheight=x\nr_frame_rate=25/1",
        "width=4\nwidth=\nheight=3\nr_frame_rate=25/1",
        "width =4\nheight=3\nr_frame_rate=25/1",
    ] {
        assert_eq!(probe(&Double, text).err(), Some(ProbeError::NoStream));
    }
}

#[test]
fn a_report_without_rate_is_an_error() {
    for text in [
        "width=4\nheight=3",
        "width=4\nheight=3\nr_frame_rate=0/0",
        "width=4\nheight=3\nr_frame_rate=0/1",
        "width=4\nheight=3\navg_frame_rate=abc",
        "width=4\nheight=3\navg_frame_rate=-25/1",
    ] {
        assert_eq!(probe(&Double, text).err(), Some(ProbeError::NoFrameRate));
    }
}

#[test]
fn the_last_of_several_lines_counts() {
    let f = read_fields(&Double, "  width=1\r\nwidth=2\r\nheight=7\nnoise\n=x\nheight=8=9\nnb_frames=+5");
    assert_eq!(f.width, Some(2));
    assert_eq!(f.height, None);
    assert_eq!(f.nb_frames, Some(5));
    assert!(f.r_fps.is_none());
    assert!(f.avg_fps.is_none());
    assert!(f.duration.is_none());
    assert_eq!(judge(&Double, &f).err(), Some(ProbeError::NoStream));
}

#[test]
fn rates_are_fractions_or_numbers() {
    assert_eq!(parse_rate(&Double, "30000/1001"), Ok(30000.0 / 1001.0));
    assert_eq!(parse_rate(&Double, "24"), Ok(24.0));
    assert_eq!(parse_rate(&Double, "x/1"), Err(RateError::BadNumerator));
    assert_eq!(parse_rate(&Double, "1/"), Err(RateError::BadDenominator));
    assert_eq!(parse_rate(&Double, "1/2/3"), Err(RateError::BadDenominator));
    assert_eq!(parse_rate(&Double, "fast"), Err(RateError::BadNumber));
}

#[test]
fn ffprobe_lies_next_to_ffmpeg() {
    assert_eq!(ffprobe_name("ffmpeg"), "ffprobe");
    assert_eq!(ffprobe_name("/opt/bin/ffmpeg"), "/opt/bin/ffprobe");
    assert_eq!(ffprobe_name("C:\\ffmpeg\\bin\\ffmpeg.exe"), "C:\\ffmpeg\\bin\\ffprobe.exe");
    assert_eq!(ffprobe_name("C:\\Tools\\FFmpeg.EXE"), "C:\\Tools\\ffprobe.exe");
    assert_eq!(ffprobe_name("FFMPEG"), "ffprobe");
    assert_eq!(ffprobe_name("/usr/bin/avconv"), "ffprobe");
    assert_eq!(ffprobe_name(""), "ffprobe");
}

#[test]
fn the_probe_asks_for_key_value_pairs() {
    assert_eq!(
        probe_args(),
        vec![
            "-v",
            "error",
            "-select_streams",
            "v:0",
            "-show_entries",
            "stream=width,height,r_frame_rate,avg_frame_rate,nb_frames,duration",
            "-of",
            "default=noprint_wrappers=1",
        ]
    );
}

#[test]
fn the_decoder_writes_raw_frames() {
    let d = Decoder::new("/x/ffmpeg");
    assert_eq!(d.program, "/x/ffmpeg");
    assert_eq!(d.before_input, vec!["-hide_banner", "-loglevel", "error", "-i"]);
    assert_eq!(d.after_input, vec!["-f", "rawvideo", "-pix_fmt", "rgb24", "pipe:1"]);
    assert_eq!(d.read_frame(ReadOutcome::Filled), Ok(true));
    assert_eq!(d.read_frame(ReadOutcome::UnexpectedEof), Ok(false));
    assert_eq!(d.read_frame(ReadOutcome::Failed), Err(VideoError::ReadFailed));
    assert_eq!(d.finish(false), Err(VideoError::DecoderExit));
    assert_eq!(Decoder::new("a").finish(true), Ok(()));
}

#[test]
fn the_encoder_takes_raw_frames() {
    let e = Encoder::new("ffmpeg", 1920, 1080, "29.97", 18, "medium");
    assert_eq!(e.program, "ffmpeg");
    let before = e.before_input.join(" ");
    assert_eq!(
        before,
        "-hide_banner -loglevel error -y -thread_queue_size 512 -f rawvideo -pix_fmt rgb24 \
         -s 1920x1080 -r 29.97 -i pipe:0 -thread_queue_size 512 -i"
    );
    let after = e.before_output.join(" ");
    assert_eq!(
        after,
        "-map 0:v:0 -map 1:a? -c:v libx264 -preset medium -crf 18 -pix_fmt yuv420p -c:a aac \
         -movflags +faststart"
    );
    assert!(e.stdin_open);
    assert_eq!(e.write_frame(WriteOutcome::Written), Ok(()));
    assert_eq!(e.write_frame(WriteOutcome::BrokenPipe), Err(VideoError::PipeClosed));
    assert_eq!(e.write_frame(WriteOutcome::Failed), Err(VideoError::WriteFailed));
    assert_eq!(e.finish(true), Ok(()));
}

#[test]
fn a_finished_encoder_takes_no_frames() {
    let mut e = Encoder::new("ffmpeg", 2, 2, "1", 51, "fast");
    e.stdin_open = false;
    assert_eq!(e.write_frame(WriteOutcome::Written), Err(VideoError::AlreadyFinished));
    assert_eq!(e.finish(false), Err(VideoError::EncoderExit));
}

#[test]
fn decimals_read_back() {
    for n in [0u64, 7, 10, 1920, 1_000_000_007, u64::MAX] {
        let s = to_decimal(n);
        assert_eq!(s, n.to_string());
        let v = chars_of(&s);
        assert_eq!(parse_unsigned(&v, 0, v.len(), u64::MAX), Some(n));
    }
}

#[test]
fn numbers_follow_the_rules_of_parsing() {
    let parse = |s: &str, max: u64| {
        let v = chars_of(s);
        parse_unsigned(&v, 0, v.len(), max)
    };
    for s in ["", "+", "-1", "1a", " 1", "18446744073709551616", "99999999999999999999999"] {
        assert_eq!(parse(s, u64::MAX), None);
        assert!(s.parse::<u64>().is_err());
    }
    assert_eq!(parse("+12", u64::MAX), Some(12));
    assert_eq!(parse("007", u64::MAX), Some(7));
    assert_eq!(parse("256", 255), None);
    assert_eq!(parse("255", 255), Some(255));
}

#[test]
fn trimming_drops_white_space() {
    let v = chars_of(" \t a b\u{3000}\r");
    let (from, to) = trim(&v, 0, v.len());
    let text: String = v[from..to].iter().collect();
    assert_eq!(text, "a b");
    assert!(is_space('\u{a0}'));
    assert!(!is_space('x'));
    assert_eq!(find(&v, 0, v.len(), 'b'), 5);
    assert_eq!(find(&v, 0, v.len(), 'z'), v.len());
    assert!(spells(&v, from, to, "a b"));
    assert!(!spells(&v, from, to, "a c"));
}

#[test]
fn white_space_is_that_of_the_standard_library() {
    for c in '\0'..='\u{3100}' {
        assert_eq!(is_space(c), c.is_whitespace());
    }
    assert_eq!(is_space('\u{feff}'), '\u{feff}'.is_whitespace());
}

#[test]
fn pixels_are_packed_red_first() {
    let rgb = [1u8, 2, 3, 255, 0, 128];
    let words = pack_frame(&rgb, 2);
    assert_eq!(words, vec![0x03_02_01, 0x80_00_ff]);
    assert_eq!(unpack_words(&words), rgb.to_vec());
}

#[test]
fn packing_is_undone() {
    let rgb: Vec<u8> = (0..300u32).map(|i| (i * 31 % 256) as u8).collect();
    let words = pack_frame(&rgb, 100);
    let bytes = word_bytes(&words);
    assert_eq!(bytes.len(), 400);
    assert_eq!(unpack_frame(&bytes), rgb);
}

#[test]
fn words_are_laid_out_as_in_memory() {
    let bytes = word_bytes(&[0x0403_0201u32, 7]);
    let mut expect = (0x0403_0201u32).to_ne_bytes().to_vec();
    expect.extend((7u32).to_ne_bytes());
    assert_eq!(bytes, expect);
}

#[test]
fn unaligned_bytes_unpack_too() {
    let words = pack_frame(&[9, 8, 7, 6, 5, 4], 2);
    let mut bytes = vec![0u8];
    bytes.extend(word_bytes(&words));
    assert_eq!(unpack_frame(&bytes[1..]), vec![9, 8, 7, 6, 5, 4]);
}

#[test]
fn automatic_levels_stop_at_twenty_four_cells() {
    assert_eq!(auto_levels(1920, 1080), 6);
    assert_eq!(auto_levels(47, 1000), 1);
    assert_eq!(auto_levels(48, 1000), 2);
    assert_eq!(auto_levels(1000, 96), 3);
    assert_eq!(auto_levels(0, 0), 1);
    assert_eq!(auto_levels(1 << 20, 1 << 20), 6);
}

#[test]
fn the_coarsest_automatic_level_is_large_enough() {
    for side in 48..2000 {
        let mut coarsest = side;
        for _ in 1..auto_levels(side, 3000) {
            coarsest = half_side(coarsest);
        }
        assert!(coarsest >= 24);
    }
}

#[test]
fn requested_levels_are_cut_off_at_six() {
    assert_eq!(pyramid_level_count(1920, 1080, 0), 6);
    assert_eq!(pyramid_level_count(100, 100, 0), 3);
    assert_eq!(pyramid_level_count(100, 100, 1), 1);
    assert_eq!(pyramid_level_count(100, 100, 6), 6);
    assert_eq!(pyramid_level_count(100, 100, 40), 6);
}

#[test]
fn sides_are_halved_down_to_one() {
    assert_eq!(half_side(7), 3);
    assert_eq!(half_side(1), 1);
    assert_eq!(half_side(0), 1);
}
