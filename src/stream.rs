//! Which hybrid-encoded level streams parquet2's run reader walks to the end
//! without panicking: every run header is a ULEB128 number that ends by its
//! tenth byte, whose tenth byte (if any) is at most 1, a bit-packed run's byte
//! count fits in `usize`, and a repeated run has its whole value. parquet2's
//! value decoder also recurses once for each empty run that it skips, so at
//! most `max_empty_runs()` empty runs may follow each other.

use vstd::prelude::*;

verus! {

/// 128 to the power `k`.
pub open spec fn pow128(k: nat) -> nat
    decreases k,
{
    if k == 0 {
        1
    } else {
        128 * pow128((k - 1) as nat)
    }
}

/// The number of bytes of the run header at `pos`: up to and including the
/// first byte below 128, or up to the end of `data`.
pub open spec fn header_len(data: Seq<u8>, pos: int) -> nat
    decreases data.len() - pos,
{
    if pos < 0 || pos >= data.len() {
        0
    } else if data[pos] < 128 {
        1
    } else {
        1 + header_len(data, pos + 1)
    }
}

/// The value of the first `k` bytes of the header at `pos`, seven bits per
/// byte, least significant first.
pub open spec fn header_value(data: Seq<u8>, pos: int, k: nat) -> nat
    decreases k,
{
    if k == 0 {
        0
    } else {
        header_value(data, pos, (k - 1) as nat) + (data[pos + k - 1] % 128) as nat * pow128(
            (k - 1) as nat,
        )
    }
}

/// The most empty runs in a row that a stream may hold.
pub open spec fn max_empty_runs() -> nat {
    1024
}

/// Whether the runs from `pos` on are read to the end without a panic, for
/// values `num_bits` wide, where `streak` empty runs came right before `pos`.
pub open spec fn safe_from(data: Seq<u8>, pos: int, num_bits: nat, streak: nat) -> bool
    decreases data.len() - pos,
{
    if pos < 0 || pos >= data.len() {
        true
    } else {
        let k = header_len(data, pos);
        if k >= 10 && data[pos + 9] > 1 {
            false
        } else if pos + k >= data.len() {
            true
        } else {
            let v = header_value(data, pos, k);
            let rest = data.len() - (pos + k);
            let streak = if v / 2 == 0 { streak + 1 } else { 0 };
            if streak > max_empty_runs() {
                false
            } else if v % 2 == 1 {
                let bytes = (v / 2) * num_bits;
                if bytes > usize::MAX {
                    false
                } else {
                    safe_from(
                        data,
                        pos + k + (if bytes < rest { bytes as int } else { rest }),
                        num_bits,
                        streak,
                    )
                }
            } else {
                let value_bytes = (num_bits + 7) / 8;
                if rest < value_bytes {
                    false
                } else {
                    safe_from(data, pos + k + value_bytes, num_bits, streak)
                }
            }
        }
    }
}

/// Whether parquet2's run reader walks all of `data` without a panic.
pub open spec fn stream_safe(data: Seq<u8>, num_bits: nat) -> bool {
    safe_from(data, 0, num_bits, 0)
}

proof fn lemma_header_len_pos(data: Seq<u8>, pos: int)
    requires
        0 <= pos < data.len(),
    ensures
        1 <= header_len(data, pos) <= data.len() - pos,
    decreases data.len() - pos,
{
    if data[pos] >= 128 {
        if pos + 1 < data.len() {
            lemma_header_len_pos(data, pos + 1);
        } else {
            assert(header_len(data, pos + 1) == 0);
        }
    }
}

proof fn lemma_header_len_stop(data: Seq<u8>, pos: int, k: int)
    requires
        0 <= pos,
        0 <= k,
        pos + k <= data.len(),
        forall|i: int| 0 <= i < k ==> #[trigger] data[pos + i] >= 128,
        pos + k == data.len() || data[pos + k] < 128,
    ensures
        header_len(data, pos) == k + (if pos + k < data.len() { 1int } else { 0 }),
    decreases k,
{
    if k > 0 {
        assert(data[pos + 0] >= 128);
        assert forall|i: int| 0 <= i < k - 1 implies #[trigger] data[(pos + 1) + i] >= 128 by {
            assert(data[pos + (i + 1)] >= 128);
        }
        lemma_header_len_stop(data, pos + 1, k - 1);
    }
}

proof fn lemma_header_len_at_least(data: Seq<u8>, pos: int, k: int)
    requires
        0 <= pos,
        0 <= k,
        pos + k < data.len(),
        forall|i: int| 0 <= i < k ==> #[trigger] data[pos + i] >= 128,
    ensures
        header_len(data, pos) >= k + 1,
    decreases k,
{
    if k > 0 {
        assert(data[pos + 0] >= 128);
        assert forall|i: int| 0 <= i < k - 1 implies #[trigger] data[(pos + 1) + i] >= 128 by {
            assert(data[pos + (i + 1)] >= 128);
        }
        lemma_header_len_at_least(data, pos + 1, k - 1);
    }
}

proof fn lemma_pow128_mono(a: nat, b: nat)
    requires
        a <= b,
    ensures
        pow128(a) <= pow128(b),
    decreases b,
{
    if a < b {
        lemma_pow128_mono(a, (b - 1) as nat);
    }
}

/// The length and value of the run header at `pos`, or `None` where its
/// tenth byte makes parquet2's ULEB128 reader panic.
fn read_header(data: &[u8], pos: usize) -> (r: Option<(usize, u128)>)
    requires
        pos < data@.len(),
    ensures
        r is None <==> (header_len(data@, pos as int) >= 10 && data@[pos + 9] > 1),
        r matches Some((k, v)) ==> k == header_len(data@, pos as int) && v == header_value(
            data@,
            pos as int,
            k as nat,
        ) && v < 0x1_0000_0000_0000_0000u128,
{
    let ghost d = data@;
    proof {
        reveal_with_fuel(pow128, 10);
        assert(pow128(8) == 0x0100_0000_0000_0000);
        assert(pow128(9) == 0x8000_0000_0000_0000);
    }
    let mut k: usize = 0;
    let mut value: u128 = 0;
    let mut mult: u128 = 1;
    loop
        invariant
            pos < d.len(),
            d == data@,
            k <= 9,
            pos + k <= d.len(),
            forall|i: int| 0 <= i < k ==> #[trigger] d[pos + i] >= 128,
            value == header_value(d, pos as int, k as nat),
            mult == pow128(k as nat),
            value < mult,
            pow128(8) == 0x0100_0000_0000_0000,
            pow128(9) == 0x8000_0000_0000_0000,
        decreases 9 - k,
    {
        proof {
            lemma_pow128_mono(k as nat, 9);
        }
        if k >= data.len() - pos {
            proof {
                lemma_header_len_stop(d, pos as int, k as int);
            }
            return Some((k, value));
        }
        let b = data[pos + k];
        if k == 9 && b > 1 {
            proof {
                lemma_header_len_at_least(d, pos as int, 9);
            }
            return None;
        }
        let c = (b % 128) as u128;
        proof {
            assert(value + c * mult < 128 * mult) by (nonlinear_arith)
                requires
                    value < mult,
                    c <= 127,
            ;
            if k == 9 {
                assert(value + c * mult < 2 * mult) by (nonlinear_arith)
                    requires
                        value < mult,
                        c <= 1,
                ;
            } else {
                lemma_pow128_mono(k as nat, 8);
            }
        }
        let next = value + c * mult;
        proof {
            assert(header_value(d, pos as int, (k + 1) as nat) == value + c * pow128(k as nat));
        }
        if b < 128 {
            proof {
                lemma_header_len_stop(d, pos as int, k as int);
            }
            return Some((k + 1, next));
        }
        value = next;
        mult = mult * 128;
        k = k + 1;
    }
}

/// Whether parquet2's run reader walks all of `data`, read as runs of values
/// `num_bits` wide, without a panic.
pub fn stream_is_safe(data: &[u8], num_bits: usize) -> (r: bool)
    requires
        num_bits <= 32,
    ensures
        r == stream_safe(data@, num_bits as nat),
{
    let mut pos: usize = 0;
    let mut streak: usize = 0;
    while pos < data.len()
        invariant
            pos <= data@.len(),
            num_bits <= 32,
            streak <= max_empty_runs(),
            stream_safe(data@, num_bits as nat) == safe_from(
                data@,
                pos as int,
                num_bits as nat,
                streak as nat,
            ),
        decreases data@.len() - pos,
    {
        proof {
            lemma_header_len_pos(data@, pos as int);
        }
        let (k, v) = match read_header(data, pos) {
            None => {
                return false;
            },
            Some(h) => h,
        };
        if k >= data.len() - pos {
            return true;
        }
        let rest = data.len() - pos - k;
        streak = if v / 2 == 0 {
            streak + 1
        } else {
            0
        };
        if streak > 1024 {
            return false;
        }
        if v % 2 == 1 {
            assert((v / 2) * (num_bits as u128) <= 0x8000_0000_0000_0000u128 * 32) by (nonlinear_arith)
                requires
                    v < 0x1_0000_0000_0000_0000u128,
                    num_bits <= 32,
            ;
            let bytes: u128 = (v / 2) * (num_bits as u128);
            if bytes > usize::MAX as u128 {
                return false;
            }
            let step: usize = if (bytes as usize) < rest {
                bytes as usize
            } else {
                rest
            };
            pos = pos + k + step;
        } else {
            let value_bytes: usize = (num_bits + 7) / 8;
            if rest < value_bytes {
                return false;
            }
            pos = pos + k + value_bytes;
        }
    }
    true
}

} // verus!
