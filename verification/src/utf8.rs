use vstd::prelude::*;

verus! {

/// Whether `b` is a UTF-8 continuation byte.
pub open spec fn is_cont(b: u8) -> bool {
    0x80 <= b <= 0xBF
}

/// Whether `s` is well-formed UTF-8: a run of one- to four-byte
/// sequences, with overlong encodings, surrogate code points and values
/// past the last code point all refused, exactly as a strict decoder
/// would.
pub open spec fn is_utf8(s: Seq<u8>) -> bool
    decreases s.len(),
{
    if s.len() == 0 {
        true
    } else {
        let b0 = s[0];
        if b0 < 0x80 {
            is_utf8(s.skip(1))
        } else if b0 < 0xC2 {
            false
        } else if b0 < 0xE0 {
            s.len() >= 2 && is_cont(s[1]) && is_utf8(s.skip(2))
        } else if b0 == 0xE0 {
            s.len() >= 3 && 0xA0 <= s[1] <= 0xBF && is_cont(s[2]) && is_utf8(s.skip(3))
        } else if b0 == 0xED {
            s.len() >= 3 && 0x80 <= s[1] <= 0x9F && is_cont(s[2]) && is_utf8(s.skip(3))
        } else if b0 < 0xF0 {
            s.len() >= 3 && is_cont(s[1]) && is_cont(s[2]) && is_utf8(s.skip(3))
        } else if b0 == 0xF0 {
            s.len() >= 4 && 0x90 <= s[1] <= 0xBF && is_cont(s[2]) && is_cont(s[3]) && is_utf8(
                s.skip(4),
            )
        } else if b0 < 0xF4 {
            s.len() >= 4 && is_cont(s[1]) && is_cont(s[2]) && is_cont(s[3]) && is_utf8(s.skip(4))
        } else if b0 == 0xF4 {
            s.len() >= 4 && 0x80 <= s[1] <= 0x8F && is_cont(s[2]) && is_cont(s[3]) && is_utf8(
                s.skip(4),
            )
        } else {
            false
        }
    }
}

/// Decide whether the bytes of `data` from `start` up to `end` are
/// well-formed UTF-8.
pub fn check_utf8_range(data: &[u8], start: usize, end: usize) -> (r: bool)
    requires
        start <= end <= data@.len(),
    ensures
        r == is_utf8(data@.subrange(start as int, end as int)),
{
    let mut i: usize = start;
    while i < end
        invariant
            start <= i <= end <= data@.len(),
            is_utf8(data@.subrange(start as int, end as int)) == is_utf8(
                data@.subrange(i as int, end as int),
            ),
        decreases end - i,
    {
        let ghost pre = data@.subrange(i as int, end as int);
        let b0 = data[i];
        let (k, lo, hi): (usize, u8, u8) = if b0 < 0x80 {
            (1, 0x80, 0xBF)
        } else if b0 < 0xC2 {
            proof {
                assert(!is_utf8(pre));
            }
            return false;
        } else if b0 < 0xE0 {
            (2, 0x80, 0xBF)
        } else if b0 == 0xE0 {
            (3, 0xA0, 0xBF)
        } else if b0 == 0xED {
            (3, 0x80, 0x9F)
        } else if b0 < 0xF0 {
            (3, 0x80, 0xBF)
        } else if b0 == 0xF0 {
            (4, 0x90, 0xBF)
        } else if b0 < 0xF4 {
            (4, 0x80, 0xBF)
        } else if b0 == 0xF4 {
            (4, 0x80, 0x8F)
        } else {
            proof {
                assert(!is_utf8(pre));
            }
            return false;
        };
        if end - i < k {
            proof {
                assert(!is_utf8(pre));
            }
            return false;
        }
        if k >= 2 {
            let b1 = data[i + 1];
            if b1 < lo || b1 > hi {
                proof {
                    assert(!is_utf8(pre));
                }
                return false;
            }
        }
        if k >= 3 {
            let b2 = data[i + 2];
            if b2 < 0x80 || b2 > 0xBF {
                proof {
                    assert(!is_utf8(pre));
                }
                return false;
            }
        }
        if k >= 4 {
            let b3 = data[i + 3];
            if b3 < 0x80 || b3 > 0xBF {
                proof {
                    assert(!is_utf8(pre));
                }
                return false;
            }
        }
        proof {
            assert(pre.skip(k as int) =~= data@.subrange((i + k) as int, end as int));
            assert(is_utf8(pre) == is_utf8(pre.skip(k as int)));
        }
        i = i + k;
    }
    true
}

} // verus!
