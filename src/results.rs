//! Model results as published downstream: embedding vectors, class names,
//! one-dimensional corner indices and the payload records built from them.
use vstd::prelude::*;
use vstd::string::*;
use crate::config::{FIX_ONE, InferencePrecision};
use crate::fp16::{f16_to_f32_bits, spec_f16_decoded};
use crate::letterbox::CodecError;
use crate::nms::{ResultBBOX, BOX_COORD_LIMIT};
use crate::resize::{pack_elements, spec_code_byte};
use crate::source::RawFrame;
use crate::tensor::{le_u16, le_u32};

verus! {

/// Embedding produced by an embedding model: single-precision values as
/// their bit patterns.
#[derive(Clone, Debug)]
pub struct ResultEmbedding {
    pub data: Vec<u32>,
}

impl ResultEmbedding {
    /// The vector as little-endian single-precision bytes.
    pub fn get_raw_bytes(&self) -> (r: Vec<u8>)
        requires
            self.data@.len() * 4 <= usize::MAX,
        ensures
            r@.len() == self.data@.len() * 4,
            forall|e: int, k: int| 0 <= e < self.data@.len() && 0 <= k < 4
                ==> r@[e * 4 + k] == #[trigger] spec_code_byte(self.data@[e], k),
    {
        pack_elements(&self.data, InferencePrecision::FP32)
    }
}

/// `data` is the decoding of the packed little-endian scalars `raw`.
pub open spec fn embedding_decodes(raw: Seq<u8>, precision: InferencePrecision, data: Seq<u32>) -> bool {
    &&& data.len() == raw.len() / precision.spec_bytes()
    &&& forall|i: int| 0 <= i < data.len() ==> match precision {
        InferencePrecision::FP16 => spec_f16_decoded(le_u16(raw, i), #[trigger] data[i]),
        InferencePrecision::FP32 => data[i] == le_u32(raw, i),
    }
}

/// Decodes an embedding model's raw output: `n` precision-packed
/// little-endian scalars become `n` single-precision values. A length that
/// is not a multiple of the element width is rejected with `InvalidShape`.
pub fn postprocess_embedding(raw_results: &Vec<u8>, precision: InferencePrecision) -> (r: Result<ResultEmbedding, CodecError>)
    ensures
        r is Ok <==> raw_results@.len() % precision.spec_bytes() == 0,
        r matches Ok(emb) ==> embedding_decodes(raw_results@, precision, emb.data@),
{
    let w = precision.element_bytes();
    let len = raw_results.len();
    if len % w != 0 {
        return Err(CodecError::InvalidShape);
    }
    let n = len / w;
    let mut data: Vec<u32> = Vec::with_capacity(n);
    let mut i: usize = 0;
    while i < n
        invariant
            w == precision.spec_bytes(),
            len == raw_results@.len(),
            n == len / w,
            i <= n,
            data@.len() == i,
            forall|j: int| 0 <= j < i ==> match precision {
                InferencePrecision::FP16 => spec_f16_decoded(le_u16(raw_results@, j), #[trigger] data@[j]),
                InferencePrecision::FP32 => data@[j] == le_u32(raw_results@, j),
            },
        decreases n - i,
    {
        proof {
            assert(i * w + w <= len) by (nonlinear_arith)
                requires i < n, n == len / w, w >= 2;
        }
        let v: u32 = match precision {
            InferencePrecision::FP16 => {
                let b0 = raw_results[2 * i];
                let b1 = raw_results[2 * i + 1];
                let h: u16 = (b0 as u16) | ((b1 as u16) << 8u16);
                assert(h == (b0 as u16) | ((b1 as u16) << 8u16) ==> h == b0 + 256 * b1) by (bit_vector);
                f16_to_f32_bits(h)
            },
            InferencePrecision::FP32 => {
                let b0 = raw_results[4 * i] as u32;
                let b1 = raw_results[4 * i + 1] as u32;
                let b2 = raw_results[4 * i + 2] as u32;
                let b3 = raw_results[4 * i + 3] as u32;
                let v: u32 = b0 | (b1 << 8u32) | (b2 << 16u32) | (b3 << 24u32);
                assert(b0 < 256 && b1 < 256 && b2 < 256 && b3 < 256
                    && v == b0 | (b1 << 8u32) | (b2 << 16u32) | (b3 << 24u32)
                    ==> v == b0 + 256 * b1 + 65536 * b2 + 16777216 * b3) by (bit_vector);
                v
            },
        };
        data.push(v);
        i = i + 1;
    }
    Ok(ResultEmbedding { data })
}

/// Decodes each output of a batched embedding request, in order; the first
/// output with a length that is not a multiple of the element width fails
/// the call with `InvalidShape`.
pub fn postprocess_embeddings(raw_results: &Vec<Vec<u8>>, precision: InferencePrecision) -> (r: Result<Vec<ResultEmbedding>, CodecError>)
    ensures
        r is Ok <==> forall|i: int| 0 <= i < raw_results@.len() ==> (#[trigger] raw_results@[i])@.len() % precision.spec_bytes() == 0,
        r matches Ok(v) ==> v@.len() == raw_results@.len(),
        r matches Ok(v) ==> forall|i: int| 0 <= i < v@.len() ==>
            embedding_decodes(raw_results@[i]@, precision, (#[trigger] v@[i]).data@),
{
    let mut out: Vec<ResultEmbedding> = Vec::with_capacity(raw_results.len());
    let mut i: usize = 0;
    while i < raw_results.len()
        invariant
            i <= raw_results@.len(),
            out@.len() == i,
            forall|j: int| 0 <= j < i ==> (#[trigger] raw_results@[j])@.len() % precision.spec_bytes() == 0,
            forall|j: int| 0 <= j < i ==> embedding_decodes(raw_results@[j]@, precision, (#[trigger] out@[j]).data@),
        decreases raw_results@.len() - i,
    {
        match postprocess_embedding(&raw_results[i], precision) {
            Ok(e) => out.push(e),
            Err(e) => { return Err(e); },
        }
        i = i + 1;
    }
    Ok(out)
}

/// The character of decimal digit `d`.
pub open spec fn digit_char(d: int) -> char {
    (('0' as u8) + d) as char
}

/// Decimal digits of `n`, most significant first.
pub open spec fn spec_decimal(n: nat) -> Seq<char>
    decreases n,
{
    if n < 10 {
        seq![digit_char(n as int)]
    } else {
        spec_decimal(n / 10).push(digit_char((n % 10) as int))
    }
}

/// Characters of the digits `ds`, stored least significant first.
pub open spec fn rev_digits(ds: Seq<u8>) -> Seq<char> {
    Seq::new(ds.len(), |i: int| digit_char(ds[ds.len() - 1 - i] as int))
}

fn digit_str(d: u8) -> (r: &'static str)
    requires
        d < 10,
    ensures
        r@ == seq![digit_char(d as int)],
{
    proof {
        reveal_strlit("0");
        reveal_strlit("1");
        reveal_strlit("2");
        reveal_strlit("3");
        reveal_strlit("4");
        reveal_strlit("5");
        reveal_strlit("6");
        reveal_strlit("7");
        reveal_strlit("8");
        reveal_strlit("9");
    }
    let r = match d {
        0 => "0",
        1 => "1",
        2 => "2",
        3 => "3",
        4 => "4",
        5 => "5",
        6 => "6",
        7 => "7",
        8 => "8",
        _ => "9",
    };
    proof {
        assert(r@ =~= seq![digit_char(d as int)]);
    }
    r
}

/// Decimal digits of `n`, without sign, padding or separators.
fn decimal_string(n: u64) -> (r: String)
    ensures
        r@ == spec_decimal(n as nat),
{
    if n == 0 {
        let r = String::from_str(digit_str(0));
        proof {
            assert(spec_decimal(0) == seq![digit_char(0)]);
        }
        return r;
    }
    let mut ds: Vec<u8> = Vec::new();
    let mut m: u64 = n;
    proof {
        assert(spec_decimal(n as nat) + rev_digits(ds@) =~= spec_decimal(n as nat));
    }
    while m > 0
        invariant
            m > 0 ==> spec_decimal(n as nat) == spec_decimal(m as nat) + rev_digits(ds@),
            m == 0 ==> spec_decimal(n as nat) == rev_digits(ds@),
            forall|i: int| 0 <= i < ds@.len() ==> ds@[i] < 10,
        decreases m,
    {
        let d = (m % 10) as u8;
        let ghost old_ds = ds@;
        ds.push(d);
        proof {
            assert(rev_digits(ds@) =~= seq![digit_char(d as int)] + rev_digits(old_ds));
            if m >= 10 {
                assert(spec_decimal(m as nat) == spec_decimal((m / 10) as nat).push(digit_char((m % 10) as int)));
                assert(spec_decimal(m as nat) + rev_digits(old_ds)
                    =~= spec_decimal((m / 10) as nat) + rev_digits(ds@));
            } else {
                assert(spec_decimal(m as nat) == seq![digit_char(m as int)]);
                assert(spec_decimal(m as nat) + rev_digits(old_ds) =~= rev_digits(ds@));
            }
        }
        m = m / 10;
    }
    let mut r = String::new();
    let mut j: usize = ds.len();
    while j > 0
        invariant
            j <= ds@.len(),
            forall|i: int| 0 <= i < ds@.len() ==> ds@[i] < 10,
            r@ == rev_digits(ds@).take(ds@.len() - j),
        decreases j,
    {
        j = j - 1;
        let ghost before = r@;
        r.append(digit_str(ds[j]));
        proof {
            assert(rev_digits(ds@).take(ds@.len() - j) =~= before + seq![digit_char(ds@[j as int] as int)]);
        }
    }
    proof {
        assert(rev_digits(ds@).take(ds@.len() as int) =~= rev_digits(ds@));
    }
    r
}

/// Names of the known class ids.
pub open spec fn spec_known_class(class: u32) -> Option<Seq<char>> {
    if class == 0 { Some(seq!['p', 'e', 'r', 's', 'o', 'n']) }
    else if class == 1 { Some(seq!['b', 'i', 'c', 'y', 'c', 'l', 'e']) }
    else if class == 2 { Some(seq!['c', 'a', 'r']) }
    else if class == 3 { Some(seq!['m', 'o', 't', 'o', 'r', 'c', 'y', 'c', 'l', 'e']) }
    else if class == 4 { Some(seq!['a', 'i', 'r', 'p', 'l', 'a', 'n', 'e']) }
    else if class == 5 { Some(seq!['b', 'u', 's']) }
    else { None }
}

/// Display name of a class id: its name when known, else its decimal id.
pub open spec fn spec_class_name(class: u32) -> Seq<char> {
    match spec_known_class(class) {
        Some(n) => n,
        None => spec_decimal(class as nat),
    }
}

fn literal(s: &str) -> (r: String)
    ensures
        r@ == s@,
{
    String::from_str(s)
}

/// `floor(v / FIX_ONE)` for a non-negative fixed-point value, 0 below zero.
pub open spec fn spec_pixel(v: i64) -> int {
    if v <= 0 { 0 } else { v / FIX_ONE }
}

/// One-dimensional index `y * width + x` of a pixel coordinate.
pub open spec fn spec_index(x: int, y: int, width: u32) -> int {
    y * width + x
}

impl ResultBBOX {
    /// Display name of the box's class.
    pub fn class_name(&self) -> (r: String)
        ensures
            r@ == spec_class_name(self.class),
    {
        proof {
            reveal_strlit("person");
            reveal_strlit("bicycle");
            reveal_strlit("car");
            reveal_strlit("motorcycle");
            reveal_strlit("airplane");
            reveal_strlit("bus");
        }
        let r = match self.class {
            0 => literal("person"),
            1 => literal("bicycle"),
            2 => literal("car"),
            3 => literal("motorcycle"),
            4 => literal("airplane"),
            5 => literal("bus"),
            _ => decimal_string(self.class as u64),
        };
        proof {
            assert(seq!['p', 'e', 'r', 's', 'o', 'n'] =~= "person"@);
            assert(seq!['b', 'i', 'c', 'y', 'c', 'l', 'e'] =~= "bicycle"@);
            assert(seq!['c', 'a', 'r'] =~= "car"@);
            assert(seq!['m', 'o', 't', 'o', 'r', 'c', 'y', 'c', 'l', 'e'] =~= "motorcycle"@);
            assert(seq!['a', 'i', 'r', 'p', 'l', 'a', 'n', 'e'] =~= "airplane"@);
            assert(seq!['b', 'u', 's'] =~= "bus"@);
        }
        r
    }

    /// Indices of the top-left and bottom-right corners in the frame seen
    /// as a one-dimensional pixel array: `y * width + x`, with each
    /// coordinate truncated to whole pixels (negative ones to 0).
    pub fn corners_coordinates(&self, frame: &RawFrame) -> (r: (u128, u128))
        requires
            self.in_range(),
        ensures
            r.0 == spec_index(spec_pixel(self.x1), spec_pixel(self.y1), frame.width),
            r.1 == spec_index(spec_pixel(self.x2), spec_pixel(self.y2), frame.width),
    {
        let x1 = pixel(self.x1);
        let y1 = pixel(self.y1);
        let x2 = pixel(self.x2);
        let y2 = pixel(self.y2);
        proof {
            assert(y1 * frame.width <= 0x2_0000_0000 * 0xffff_ffff) by (nonlinear_arith)
                requires y1 <= 0x2_0000_0000, frame.width <= 0xffff_ffff;
            assert(y2 * frame.width <= 0x2_0000_0000 * 0xffff_ffff) by (nonlinear_arith)
                requires y2 <= 0x2_0000_0000, frame.width <= 0xffff_ffff;
        }
        ((y1 as u128) * (frame.width as u128) + (x1 as u128), (y2 as u128) * (frame.width as u128) + (x2 as u128))
    }
}

fn pixel(v: i64) -> (r: u64)
    requires
        -BOX_COORD_LIMIT <= v <= BOX_COORD_LIMIT,
    ensures
        r == spec_pixel(v),
        r <= 0x2_0000_0000,
{
    if v <= 0 { 0 } else { (v / FIX_ONE) as u64 }
}

/// One published detection.
#[derive(Clone, Debug)]
pub struct DetectionRecord {
    pub pts: u64,
    pub top_left_corner: u128,
    pub bottom_right_corner: u128,
    pub class_name: String,
    /// Fixed-point confidence (see `FIX_ONE`).
    pub score: i64,
}

pub open spec fn record_matches(r: DetectionRecord, b: ResultBBOX, frame: RawFrame) -> bool {
    &&& r.pts == frame.pts
    &&& r.top_left_corner == spec_index(spec_pixel(b.x1), spec_pixel(b.y1), frame.width)
    &&& r.bottom_right_corner == spec_index(spec_pixel(b.x2), spec_pixel(b.y2), frame.width)
    &&& r.class_name@ == spec_class_name(b.class)
    &&& r.score == b.score
}

/// Payload records of a frame's detections, one per box, in box order.
pub fn detection_records(frame: &RawFrame, bboxes: &Vec<ResultBBOX>) -> (r: Vec<DetectionRecord>)
    requires
        forall|i: int| 0 <= i < bboxes@.len() ==> (#[trigger] bboxes@[i]).in_range(),
    ensures
        r@.len() == bboxes@.len(),
        forall|i: int| 0 <= i < bboxes@.len() ==> record_matches(#[trigger] r@[i], bboxes@[i], *frame),
{
    let mut r: Vec<DetectionRecord> = Vec::with_capacity(bboxes.len());
    let mut i: usize = 0;
    while i < bboxes.len()
        invariant
            i <= bboxes@.len(),
            forall|j: int| 0 <= j < bboxes@.len() ==> (#[trigger] bboxes@[j]).in_range(),
            r@.len() == i,
            forall|j: int| 0 <= j < i ==> record_matches(#[trigger] r@[j], bboxes@[j], *frame),
        decreases bboxes@.len() - i,
    {
        let b = bboxes[i];
        proof { assert(bboxes@[i as int].in_range()); }
        let (top_left_corner, bottom_right_corner) = b.corners_coordinates(frame);
        r.push(DetectionRecord {
            pts: frame.pts,
            top_left_corner,
            bottom_right_corner,
            class_name: b.class_name(),
            score: b.score,
        });
        i = i + 1;
    }
    r
}

/// Event-bus key of an embedding: `"{source_id}-{pts}"`.
pub fn embedding_key(source_id: &str, pts: u64) -> (r: String)
    ensures
        r@ == source_id@ + seq!['-'] + spec_decimal(pts as nat),
{
    let mut r = String::from_str(source_id);
    r.append("-");
    let digits = decimal_string(pts);
    r.append(digits.as_str());
    proof {
        reveal_strlit("-");
        assert("-"@ =~= seq!['-']);
    }
    r
}

} // verus!
