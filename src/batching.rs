//! Client-side batching of inference requests: splitting inputs into
//! chunks of at most `batch_max` samples, concatenating each chunk into one
//! request body, splitting each response into per-sample outputs, and
//! putting the chunks' outputs back in input order.
use vstd::prelude::*;
use crate::config::InferencePrecision;
use crate::letterbox::CodecError;

verus! {

/// Product of the dimensions of a shape.
pub open spec fn spec_product(s: Seq<i64>) -> int
    decreases s.len(),
{
    if s.len() == 0 { 1 } else { spec_product(s.drop_last()) * s.last() }
}

pub open spec fn all_nonneg(s: Seq<i64>) -> bool {
    forall|i: int| 0 <= i < s.len() ==> s[i] >= 0
}

pub open spec fn all_positive(s: Seq<i64>) -> bool {
    forall|i: int| 0 <= i < s.len() ==> s[i] >= 1
}

proof fn lemma_product_zero(s: Seq<i64>, k: int)
    requires
        0 <= k < s.len(),
        s[k] == 0,
    ensures
        spec_product(s) == 0,
    decreases s.len(),
{
    if k < s.len() - 1 {
        lemma_product_zero(s.drop_last(), k);
    }
}

proof fn lemma_product_monotone(s: Seq<i64>, n: int)
    requires
        all_positive(s),
        0 <= n <= s.len(),
    ensures
        1 <= spec_product(s.take(n)) <= spec_product(s),
    decreases s.len() - n,
{
    if n < s.len() {
        lemma_product_monotone(s, n + 1);
        assert(s.take(n + 1).drop_last() =~= s.take(n));
        let p = spec_product(s.take(n));
        assert(spec_product(s.take(n + 1)) == p * s[n]);
        lemma_positive_prefix(s, n);
        assert(p <= p * s[n]) by (nonlinear_arith)
            requires p >= 1, s[n] >= 1;
    } else {
        assert(s.take(n) =~= s);
        lemma_positive_prefix(s, n);
    }
}

proof fn lemma_positive_prefix(s: Seq<i64>, n: int)
    requires
        all_positive(s),
        0 <= n <= s.len(),
    ensures
        spec_product(s.take(n)) >= 1,
    decreases n,
{
    if n > 0 {
        lemma_positive_prefix(s, n - 1);
        assert(s.take(n).drop_last() =~= s.take(n - 1));
        assert(spec_product(s.take(n - 1)) * s[n - 1] >= 1) by (nonlinear_arith)
            requires spec_product(s.take(n - 1)) >= 1, s[n - 1] >= 1;
    }
}

/// Bytes of one sample's output: the product of `output_shape` times the
/// element width. `None` when a dimension is negative or the size does not
/// fit in `usize`.
pub fn output_size_per_sample(output_shape: &Vec<i64>, precision: InferencePrecision) -> (r: Option<usize>)
    ensures
        r is None <==> !all_nonneg(output_shape@)
            || spec_product(output_shape@) * precision.spec_bytes() > usize::MAX,
        r matches Some(n) ==> n == spec_product(output_shape@) * precision.spec_bytes(),
{
    let mut i: usize = 0;
    let mut has_zero = false;
    while i < output_shape.len()
        invariant
            i <= output_shape@.len(),
            forall|j: int| 0 <= j < i ==> output_shape@[j] >= 0,
            has_zero ==> exists|j: int| 0 <= j < i && output_shape@[j] == 0,
            !has_zero ==> forall|j: int| 0 <= j < i ==> output_shape@[j] >= 1,
        decreases output_shape@.len() - i,
    {
        if output_shape[i] < 0 {
            return None;
        }
        if output_shape[i] == 0 {
            has_zero = true;
        }
        i = i + 1;
    }
    if has_zero {
        proof {
            let j = choose|j: int| 0 <= j < output_shape@.len() && output_shape@[j] == 0;
            lemma_product_zero(output_shape@, j);
        }
        return Some(0);
    }
    let bytes = precision.element_bytes();
    let mut p: usize = bytes;
    let mut k: usize = 0;
    proof {
        assert(output_shape@.take(0) =~= Seq::<i64>::empty());
    }
    while k < output_shape.len()
        invariant
            k <= output_shape@.len(),
            all_positive(output_shape@),
            bytes == precision.spec_bytes(),
            p == spec_product(output_shape@.take(k as int)) * bytes,
        decreases output_shape@.len() - k,
    {
        let d = output_shape[k];
        proof {
            assert(output_shape@.take(k + 1).drop_last() =~= output_shape@.take(k as int));
            assert(spec_product(output_shape@.take(k + 1)) == spec_product(output_shape@.take(k as int)) * d);
            assert(p * d == spec_product(output_shape@.take(k + 1)) * bytes) by (nonlinear_arith)
                requires
                    p == spec_product(output_shape@.take(k as int)) * bytes,
                    spec_product(output_shape@.take(k + 1)) == spec_product(output_shape@.take(k as int)) * d;
        }
        proof {
            lemma_positive_prefix(output_shape@, k as int);
            assert(p >= 1) by (nonlinear_arith)
                requires p == spec_product(output_shape@.take(k as int)) * bytes,
                    spec_product(output_shape@.take(k as int)) >= 1, bytes >= 2;
        }
        if (d as u128) > (usize::MAX as u128) / (p as u128) {
            proof {
                lemma_product_monotone(output_shape@, k + 1);
                assert(p * d > usize::MAX) by (nonlinear_arith)
                    requires d > usize::MAX / p, p >= 1;
                assert(spec_product(output_shape@) * bytes >= spec_product(output_shape@.take(k + 1)) * bytes) by (nonlinear_arith)
                    requires spec_product(output_shape@) >= spec_product(output_shape@.take(k + 1)), bytes >= 2;
            }
            return None;
        }
        proof {
            assert(p * d <= usize::MAX) by (nonlinear_arith)
                requires d <= usize::MAX / p, p >= 1;
        }
        p = p * (d as usize);
        k = k + 1;
    }
    proof {
        assert(output_shape@.take(output_shape@.len() as int) =~= output_shape@);
    }
    Some(p)
}

/// Views of a sequence of byte buffers.
pub open spec fn views(s: Seq<Vec<u8>>) -> Seq<Seq<u8>> {
    s.map_values(|v: Vec<u8>| v@)
}

/// Concatenation of byte sequences, front to back.
pub open spec fn concat_bytes(s: Seq<Seq<u8>>) -> Seq<u8>
    decreases s.len(),
{
    if s.len() == 0 { Seq::empty() } else { concat_bytes(s.drop_last()) + s.last() }
}

/// Number of chunks of at most `batch_max` that `n` samples form.
pub open spec fn spec_chunk_count(n: int, batch_max: int) -> int {
    (n + batch_max - 1) / batch_max
}

/// Sample range `[start, end)` of chunk `c`.
pub open spec fn spec_chunk_start(c: int, batch_max: int) -> int {
    c * batch_max
}

pub open spec fn spec_chunk_end(c: int, n: int, batch_max: int) -> int {
    if (c + 1) * batch_max <= n { (c + 1) * batch_max } else { n }
}

/// Sample ranges of the chunks of `n` samples, in order: chunk `c` covers
/// `[c * batch_max, min((c + 1) * batch_max, n))`.
pub fn chunk_ranges(n: usize, batch_max: usize) -> (r: Vec<(usize, usize)>)
    requires
        batch_max >= 1,
    ensures
        r@.len() == spec_chunk_count(n as int, batch_max as int),
        forall|c: int| 0 <= c < r@.len() ==> (#[trigger] r@[c]).0 == spec_chunk_start(c, batch_max as int)
            && r@[c].1 == spec_chunk_end(c, n as int, batch_max as int),
{
    let mut r: Vec<(usize, usize)> = Vec::new();
    let mut start: usize = 0;
    let ghost mut c: int = 0;
    proof {
        if n == 0 {
            assert(spec_chunk_count(0, batch_max as int) == 0) by (nonlinear_arith)
                requires batch_max >= 1;
        } else {
            assert(spec_chunk_count(n as int, batch_max as int) >= 1) by (nonlinear_arith)
                requires batch_max >= 1, n >= 1;
        }
    }
    while start < n
        invariant
            batch_max >= 1,
            start <= n,
            c >= 0,
            c * batch_max <= n ==> start == c * batch_max,
            c * batch_max > n ==> start == n,
            start < n ==> c < spec_chunk_count(n as int, batch_max as int),
            start == n ==> c == spec_chunk_count(n as int, batch_max as int),
            r@.len() == c,
            forall|i: int| 0 <= i < c ==> (#[trigger] r@[i]).0 == spec_chunk_start(i, batch_max as int)
                && r@[i].1 == spec_chunk_end(i, n as int, batch_max as int),
        decreases n - start,
    {
        proof {
            if c * batch_max > n {
                assert(false);
            }
            assert((c + 1) * batch_max == c * batch_max + batch_max) by (nonlinear_arith);
        }
        let end: usize = if n - start > batch_max { start + batch_max } else { n };
        r.push((start, end));
        proof {
            c = c + 1;
            if end < n {
                assert(c * batch_max < n);
                assert(c < spec_chunk_count(n as int, batch_max as int)) by (nonlinear_arith)
                    requires c * batch_max < n, batch_max >= 1, c >= 0;
            } else {
                assert((c - 1) * batch_max < n);
                assert(n <= c * batch_max);
                assert(c == spec_chunk_count(n as int, batch_max as int)) by (nonlinear_arith)
                    requires (c - 1) * batch_max < n, n <= c * batch_max, batch_max >= 1;
            }
        }
        start = end;
    }
    r
}

/// One request body: the samples `inputs[start..end]` concatenated in order.
pub fn concat_chunk(inputs: &Vec<Vec<u8>>, start: usize, end: usize) -> (r: Vec<u8>)
    requires
        start <= end <= inputs@.len(),
    ensures
        r@ == concat_bytes(views(inputs@.subrange(start as int, end as int))),
{
    let mut r: Vec<u8> = Vec::new();
    let mut i: usize = start;
    while i < end
        invariant
            start <= i <= end <= inputs@.len(),
            r@ == concat_bytes(views(inputs@.subrange(start as int, i as int))),
        decreases end - i,
    {
        let ghost before = r@;
        r.extend_from_slice(inputs[i].as_slice());
        proof {
            let s = views(inputs@.subrange(start as int, i + 1));
            assert(s.drop_last() =~= views(inputs@.subrange(start as int, i as int)));
            assert(s.last() == inputs@[i as int]@);
            assert(r@ =~= before + inputs@[i as int]@);
        }
        i = i + 1;
    }
    r
}

/// Input shape of a batched request: the batch size, then the sample shape.
pub fn batch_input_shape(batch_size: usize, input_shape: &Vec<i64>) -> (r: Vec<i64>)
    requires
        batch_size <= i64::MAX,
    ensures
        r@ == seq![batch_size as i64] + input_shape@,
{
    let mut r: Vec<i64> = Vec::new();
    r.push(batch_size as i64);
    let mut i: usize = 0;
    while i < input_shape.len()
        invariant
            i <= input_shape@.len(),
            r@ == seq![batch_size as i64] + input_shape@.take(i as int),
        decreases input_shape@.len() - i,
    {
        r.push(input_shape[i]);
        proof {
            assert(input_shape@.take(i + 1) =~= input_shape@.take(i as int).push(input_shape@[i as int]));
        }
        i = i + 1;
    }
    proof {
        assert(input_shape@.take(input_shape@.len() as int) =~= input_shape@);
    }
    r
}

/// Splits a batch response into per-sample outputs of `per_sample` bytes.
/// A response whose length is not `batch_size * per_sample` is rejected
/// with `InvalidShape`.
pub fn split_batch_output(output: &Vec<u8>, batch_size: usize, per_sample: usize) -> (r: Result<Vec<Vec<u8>>, CodecError>)
    ensures
        r is Ok <==> output@.len() == batch_size * per_sample,
        r matches Ok(v) ==> v@.len() == batch_size,
        r matches Ok(v) ==> forall|i: int| 0 <= i < batch_size ==>
            (#[trigger] v@[i])@ == output@.subrange(i * per_sample, (i + 1) * per_sample),
{
    let n = output.len();
    proof {
        assert((batch_size as u128) * (per_sample as u128) <= 0xffff_ffff_ffff_ffff * 0xffff_ffff_ffff_ffffu128) by (nonlinear_arith)
            requires batch_size <= 0xffff_ffff_ffff_ffffu128, per_sample <= 0xffff_ffff_ffff_ffffu128;
    }
    if (n as u128) != (batch_size as u128) * (per_sample as u128) {
        return Err(CodecError::InvalidShape);
    }
    let mut r: Vec<Vec<u8>> = Vec::with_capacity(batch_size);
    let mut i: usize = 0;
    while i < batch_size
        invariant
            i <= batch_size,
            output@.len() == batch_size * per_sample,
            n == output@.len(),
            r@.len() == i,
            forall|j: int| 0 <= j < i ==>
                (#[trigger] r@[j])@ == output@.subrange(j * per_sample, (j + 1) * per_sample),
        decreases batch_size - i,
    {
        proof {
            assert((i + 1) * per_sample <= batch_size * per_sample) by (nonlinear_arith)
                requires i < batch_size;
            assert(i * per_sample + per_sample == (i + 1) * per_sample) by (nonlinear_arith);
        }
        let lo = i * per_sample;
        let hi = lo + per_sample;
        let mut sample: Vec<u8> = Vec::with_capacity(per_sample);
        let mut k: usize = lo;
        while k < hi
            invariant
                lo <= k <= hi <= output@.len(),
                sample@ == output@.subrange(lo as int, k as int),
            decreases hi - k,
        {
            sample.push(output[k]);
            proof {
                assert(output@.subrange(lo as int, k + 1) =~= output@.subrange(lo as int, k as int).push(output@[k as int]));
            }
            k = k + 1;
        }
        r.push(sample);
        i = i + 1;
    }
    Ok(r)
}

/// Concatenation of sequences of outputs, front to back.
pub open spec fn concat_outputs(s: Seq<Seq<Vec<u8>>>) -> Seq<Vec<u8>>
    decreases s.len(),
{
    if s.len() == 0 { Seq::empty() } else { s[0] + concat_outputs(s.drop_first()) }
}

/// Puts the per-chunk outputs back into one sequence, chunk by chunk, so
/// that output `j` of chunk `c` lands where sample `j` of chunk `c` stood.
pub fn assemble_outputs(chunks: Vec<Vec<Vec<u8>>>) -> (r: Vec<Vec<u8>>)
    ensures
        r@ == concat_outputs(chunks@.map_values(|c: Vec<Vec<u8>>| c@)),
{
    let ghost all = chunks@.map_values(|c: Vec<Vec<u8>>| c@);
    let mut rest = chunks;
    let mut r: Vec<Vec<u8>> = Vec::new();
    while rest.len() > 0
        invariant
            r@ + concat_outputs(rest@.map_values(|c: Vec<Vec<u8>>| c@)) == concat_outputs(all),
        decreases rest@.len(),
    {
        let ghost old_rest = rest@.map_values(|c: Vec<Vec<u8>>| c@);
        let ghost before = r@;
        let mut first = rest.remove(0);
        let ghost fv = first@;
        r.append(&mut first);
        proof {
            assert(rest@.map_values(|c: Vec<Vec<u8>>| c@) =~= old_rest.drop_first());
            assert(old_rest[0] == fv);
            assert(r@ =~= before + fv);
            assert(concat_outputs(old_rest) == fv + concat_outputs(old_rest.drop_first()));
            assert(before + concat_outputs(old_rest) =~= (before + fv) + concat_outputs(old_rest.drop_first()));
        }
    }
    proof {
        assert(rest@.map_values(|c: Vec<Vec<u8>>| c@) =~= Seq::<Seq<Vec<u8>>>::empty());
        assert(r@ + Seq::<Vec<u8>>::empty() =~= r@);
    }
    r
}

/// Output order follows input order: when every chunk but the last holds
/// `batch_max` outputs, output `j` of chunk `c` is at position
/// `c * batch_max + j` of the assembled sequence.
pub proof fn lemma_assembled_order(chunks: Seq<Seq<Vec<u8>>>, batch_max: int, c: int, j: int)
    requires
        batch_max >= 1,
        forall|k: int| 0 <= k < chunks.len() - 1 ==> (#[trigger] chunks[k]).len() == batch_max,
        0 <= c < chunks.len(),
        0 <= j < chunks[c].len(),
    ensures
        c * batch_max + j < concat_outputs(chunks).len(),
        concat_outputs(chunks)[c * batch_max + j] == chunks[c][j],
    decreases c,
{
    if c > 0 {
        let rest = chunks.drop_first();
        assert forall|k: int| 0 <= k < rest.len() - 1 implies (#[trigger] rest[k]).len() == batch_max by {
            assert(rest[k] == chunks[k + 1]);
        }
        lemma_assembled_order(rest, batch_max, c - 1, j);
        assert(chunks[0].len() == batch_max);
        assert((c - 1) * batch_max + j + batch_max == c * batch_max + j) by (nonlinear_arith);
    }
}

} // verus!
