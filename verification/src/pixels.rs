//! Packed pixels: the form in which frames travel to and from the graphics
//! device.
use crate::parallel::par_map;
use vstd::prelude::*;

verus! {

/// A pixel as one word: red in the lowest byte, then green, then blue.
pub open spec fn packed_pixel(r: u8, g: u8, b: u8) -> int {
    r + 256 * g + 65536 * b
}

/// Byte `c` of a word, counted from the lowest.
pub open spec fn word_byte(p: u32, c: int) -> int {
    if c == 0 {
        p as int % 256
    } else if c == 1 {
        (p as int / 256) % 256
    } else if c == 2 {
        (p as int / 65536) % 256
    } else {
        p as int / 16777216
    }
}

/// `words` are the pixels of the frame `rgb`.
pub open spec fn is_packed(rgb: Seq<u8>, words: Seq<u32>) -> bool {
    forall|i: int|
        0 <= i < words.len() ==> #[trigger] words[i] == packed_pixel(
            rgb[3 * i],
            rgb[3 * i + 1],
            rgb[3 * i + 2],
        )
}

/// `rgb` is the frame with the pixels `words`.
pub open spec fn is_unpacked(words: Seq<u32>, rgb: Seq<u8>) -> bool {
    &&& rgb.len() == 3 * words.len()
    &&& forall|i: int|
        #![trigger words[i]]
        0 <= i < words.len() ==> {
            &&& rgb[3 * i] == word_byte(words[i], 0)
            &&& rgb[3 * i + 1] == word_byte(words[i], 1)
            &&& rgb[3 * i + 2] == word_byte(words[i], 2)
        }
}

/// `bytes` holds each word from its lowest byte up.
pub open spec fn is_little_endian(words: Seq<u32>, bytes: Seq<u8>) -> bool {
    forall|i: int|
        #![trigger words[i]]
        0 <= i < words.len() ==> {
            &&& bytes[4 * i] == word_byte(words[i], 0)
            &&& bytes[4 * i + 1] == word_byte(words[i], 1)
            &&& bytes[4 * i + 2] == word_byte(words[i], 2)
            &&& bytes[4 * i + 3] == word_byte(words[i], 3)
        }
}

/// `bytes` holds each word from its highest byte down.
pub open spec fn is_big_endian(words: Seq<u32>, bytes: Seq<u8>) -> bool {
    forall|i: int|
        #![trigger words[i]]
        0 <= i < words.len() ==> {
            &&& bytes[4 * i] == word_byte(words[i], 3)
            &&& bytes[4 * i + 1] == word_byte(words[i], 2)
            &&& bytes[4 * i + 2] == word_byte(words[i], 1)
            &&& bytes[4 * i + 3] == word_byte(words[i], 0)
        }
}

/// `bytes` is the memory of `words`: four bytes each, in the byte order of the
/// machine, which is the same for all of them.
pub open spec fn is_memory_of(words: Seq<u32>, bytes: Seq<u8>) -> bool {
    &&& bytes.len() == 4 * words.len()
    &&& is_little_endian(words, bytes) || is_big_endian(words, bytes)
}

/// `bytemuck::cast_slice` from words to bytes: the memory of the words, in the
/// byte order of the machine. A cast to a type of smaller alignment whose size
/// divides that of the source never fails.
#[verifier::external_body]
fn cast_words(words: &[u32]) -> (bytes: &[u8])
    ensures
        is_memory_of(words@, bytes@),
{
    bytemuck::cast_slice(words)
}

/// `bytemuck::pod_collect_to_vec` from bytes to words: the words whose memory,
/// in the byte order of the machine, the bytes are. It copies, so the bytes
/// may lie at any address; their number must be a multiple of four, or else
/// zeros would be added to the last word.
#[verifier::external_body]
fn collect_words(bytes: &[u8]) -> (words: Vec<u32>)
    requires
        bytes@.len() % 4 == 0,
    ensures
        is_memory_of(words@, bytes@),
{
    bytemuck::pod_collect_to_vec(bytes)
}

/// The memory of a list of words.
pub fn word_bytes(words: &[u32]) -> (bytes: Vec<u8>)
    ensures
        is_memory_of(words@, bytes@),
{
    let memory = cast_words(words);
    let mut bytes: Vec<u8> = Vec::new();
    let mut i: usize = 0;
    while i < memory.len()
        invariant
            i <= memory@.len(),
            bytes@ == memory@.take(i as int),
        decreases memory@.len() - i,
    {
        bytes.push(memory[i]);
        assert(memory@.take(i + 1) =~= memory@.take(i as int).push(memory@[i as int]));
        i += 1;
    }
    assert(memory@.take(i as int) =~= memory@);
    bytes
}

fn pack_pixel(r: u8, g: u8, b: u8) -> (p: u32)
    ensures
        p == packed_pixel(r, g, b),
{
    let x: u32 = r as u32;
    let y: u32 = g as u32;
    let z: u32 = b as u32;
    assert(x | (y << 8u32) | (z << 16u32) == x + 256 * y + 65536 * z) by (bit_vector)
        requires
            x < 256,
            y < 256,
            z < 256,
    ;
    x | (y << 8) | (z << 16)
}

/// Packs an RGB24 frame of `n` pixels.
pub fn pack_frame(rgb: &[u8], n: usize) -> (words: Vec<u32>)
    requires
        3 * n <= rgb@.len(),
    ensures
        words.len() == n,
        is_packed(rgb@, words@),
{
    let len: usize = rgb.len();
    par_map(
        n,
        |i: usize| -> (p: u32)
            requires
                n > i,
                3 * n <= rgb@.len(),
                rgb@.len() == len,
            ensures
                p == packed_pixel(rgb@[3 * i], rgb@[3 * i + 1], rgb@[3 * i + 2])
            { pack_pixel(rgb[i * 3], rgb[i * 3 + 1], rgb[i * 3 + 2]) },
    )
}

fn unpack_byte(p: u32, c: u32) -> (b: u8)
    requires
        c < 3,
    ensures
        b == word_byte(p, c as int),
{
    proof {
        assert(p & 255u32 == p % 256 && p & 255 < 256) by (bit_vector);
        assert((p >> 8u32) & 255u32 == (p / 256) % 256) by (bit_vector);
        assert((p >> 16u32) & 255u32 == (p / 65536) % 256) by (bit_vector);
    }
    if c == 0 {
        (p & 255) as u8
    } else if c == 1 {
        ((p >> 8) & 255) as u8
    } else {
        ((p >> 16) & 255) as u8
    }
}

/// The RGB24 frame with the given pixels.
pub fn unpack_words(words: &Vec<u32>) -> (rgb: Vec<u8>)
    requires
        3 * words.len() <= usize::MAX,
    ensures
        is_unpacked(words@, rgb@),
{
    let mut rgb: Vec<u8> = Vec::new();
    let mut i: usize = 0;
    while i < words.len()
        invariant
            i <= words.len(),
            rgb.len() == 3 * i,
            forall|j: int|
                #![trigger words@[j]]
                0 <= j < i ==> {
                    &&& rgb@[3 * j] == word_byte(words@[j], 0)
                    &&& rgb@[3 * j + 1] == word_byte(words@[j], 1)
                    &&& rgb@[3 * j + 2] == word_byte(words@[j], 2)
                },
        decreases words.len() - i,
    {
        let p: u32 = words[i];
        rgb.push(unpack_byte(p, 0));
        rgb.push(unpack_byte(p, 1));
        rgb.push(unpack_byte(p, 2));
        i += 1;
    }
    rgb
}

/// The RGB24 frame whose packed pixels lie in `bytes`.
pub fn unpack_frame(bytes: &[u8]) -> (rgb: Vec<u8>)
    requires
        bytes@.len() % 4 == 0,
    ensures
        exists|words: Seq<u32>| #[trigger]
            is_memory_of(words, bytes@) && is_unpacked(words, rgb@),
{
    let len: usize = bytes.len();
    let words = collect_words(bytes);
    assert(is_memory_of(words@, bytes@));
    unpack_words(&words)
}

/// Packing a frame and unpacking it gives the frame back.
pub proof fn law_unpack_undoes_pack(rgb: Seq<u8>, words: Seq<u32>, back: Seq<u8>)
    requires
        rgb.len() == 3 * words.len(),
        is_packed(rgb, words),
        is_unpacked(words, back),
    ensures
        back == rgb,
{
    assert forall|j: int| 0 <= j < rgb.len() implies back[j] == rgb[j] by {
        let i = j / 3;
        let p = words[i];
        let r = rgb[3 * i];
        let g = rgb[3 * i + 1];
        let b = rgb[3 * i + 2];
        assert(p == packed_pixel(r, g, b));
        assert(p as int % 256 == r);
        assert((p as int / 256) % 256 == g);
        assert((p as int / 65536) % 256 == b);
    }
    assert(back =~= rgb);
}

/// Word `i` of a packed frame holds pixel `i`: red counts once, green 256 times as
/// much, blue 65536 times.
pub proof fn law_pixels_become_words(rgb: &[u8], n: usize, words: Vec<u32>, i: int)
    requires
        3 * n <= rgb@.len(),
        call_ensures(pack_frame, (rgb, n), words),
        0 <= i < n,
    ensures
        words@.len() == n,
        words@[i] == rgb@[3 * i] + 256 * rgb@[3 * i + 1] + 65536 * rgb@[3 * i + 2],
{
}

/// A frame that was packed and taken apart again is the frame.
pub proof fn law_frames_survive_packing(
    rgb: &[u8],
    n: usize,
    words: &Vec<u32>,
    back: Vec<u8>,
)
    requires
        3 * n == rgb@.len(),
        call_ensures(pack_frame, (rgb, n), *words),
        call_ensures(unpack_words, (words,), back),
    ensures
        back@ == rgb@,
{
    law_unpack_undoes_pack(rgb@, words@, back@);
}

/// The memory of a word is its four bytes, worth 1, 256, 65536 and 16777216, from
/// the lowest up or from the highest down, the same way for all words.
pub proof fn law_memory_holds_the_words(words: &[u32], bytes: Vec<u8>)
    requires
        call_ensures(word_bytes, (words,), bytes),
    ensures
        bytes@.len() == 4 * words@.len(),
        ({
            ||| forall|i: int|
                0 <= i < words@.len() ==> #[trigger] words@[i] == bytes@[4 * i] + 256 * bytes@[4 * i
                    + 1] + 65536 * bytes@[4 * i + 2] + 16777216 * bytes@[4 * i + 3]
            ||| forall|i: int|
                0 <= i < words@.len() ==> #[trigger] words@[i] == bytes@[4 * i + 3] + 256
                    * bytes@[4 * i + 2] + 65536 * bytes@[4 * i + 1] + 16777216 * bytes@[4 * i]
        }),
{
}

/// A frame that lay in memory comes back without the fourth byte of every pixel.
pub proof fn law_memory_is_unpacked(bytes: &[u8], rgb: Vec<u8>)
    requires
        bytes@.len() % 4 == 0,
        call_ensures(unpack_frame, (bytes,), rgb),
    ensures
        4 * rgb@.len() == 3 * bytes@.len(),
        ({
            ||| forall|i: int|
                #![trigger rgb@[3 * i]]
                0 <= 4 * i < bytes@.len() ==> rgb@[3 * i] == bytes@[4 * i] && rgb@[3 * i + 1]
                    == bytes@[4 * i + 1] && rgb@[3 * i + 2] == bytes@[4 * i + 2]
            ||| forall|i: int|
                #![trigger rgb@[3 * i]]
                0 <= 4 * i < bytes@.len() ==> rgb@[3 * i] == bytes@[4 * i + 3] && rgb@[3 * i + 1]
                    == bytes@[4 * i + 2] && rgb@[3 * i + 2] == bytes@[4 * i + 1]
        }),
{
    let words = choose|words: Seq<u32>| #[trigger]
        is_memory_of(words, bytes@) && is_unpacked(words, rgb@);
    assert forall|i: int| 0 <= 4 * i < bytes@.len() implies 0 <= i < words.len() && rgb@[3 * i]
        == word_byte(#[trigger] words[i], 0) && rgb@[3 * i + 1] == word_byte(words[i], 1) && rgb@[3
        * i + 2] == word_byte(words[i], 2) by {}
    if is_little_endian(words, bytes@) {
        assert forall|i: int|
            #![trigger rgb@[3 * i]]
            0 <= 4 * i < bytes@.len() implies rgb@[3 * i] == bytes@[4 * i] && rgb@[3 * i + 1]
            == bytes@[4 * i + 1] && rgb@[3 * i + 2] == bytes@[4 * i + 2] by {
            let p = words[i];
        }
    } else {
        assert forall|i: int|
            #![trigger rgb@[3 * i]]
            0 <= 4 * i < bytes@.len() implies rgb@[3 * i] == bytes@[4 * i + 3] && rgb@[3 * i + 1]
            == bytes@[4 * i + 2] && rgb@[3 * i + 2] == bytes@[4 * i + 1] by {
            let p = words[i];
        }
    }
}

} // verus!
