//! Zero-elision packing for the legacy format's payload.
//!
//! Trace payloads are dominated by zero bytes (identifiers are stored in
//! fixed 64-bit fields), so the legacy format stores the payload packed:
//! a nonzero byte stands for itself, and a run of up to 255 zero bytes is
//! stored as a zero byte followed by the run's length.  [`lemma_unpack_pack`]
//! proves that unpacking a packed payload restores it exactly.

use vstd::prelude::*;

verus! {

/// The length of the run of zero bytes at the front of `s`.
pub open spec fn zero_run(s: Seq<u8>) -> int
    decreases s.len(),
{
    if s.len() == 0 || s[0] != 0u8 {
        0
    } else {
        1 + zero_run(s.subrange(1, s.len() as int))
    }
}

/// A sequence of `n` zero bytes.
pub open spec fn zeros(n: int) -> Seq<u8> {
    Seq::new(n as nat, |i: int| 0u8)
}

/// The first `zero_run(s)` bytes of `s` are zero, and the run is maximal.
pub proof fn lemma_zero_run(s: Seq<u8>)
    ensures
        0 <= zero_run(s) <= s.len(),
        forall|i: int| 0 <= i < zero_run(s) ==> s[i] == 0u8,
        zero_run(s) < s.len() ==> s[zero_run(s)] != 0u8,
    decreases s.len(),
{
    if s.len() > 0 && s[0] == 0u8 {
        let t = s.subrange(1, s.len() as int);
        lemma_zero_run(t);
        assert forall|i: int| 0 <= i < zero_run(s) implies s[i] == 0u8 by {
            if i > 0 {
                assert(t[i - 1] == 0u8);
            }
        }
    }
}

/// The packed form of `s`: nonzero bytes stand for themselves, runs of up to
/// 255 zero bytes become a zero byte and a length byte.
pub open spec fn pack(s: Seq<u8>) -> Seq<u8>
    decreases s.len(),
    via pack_decreases
{
    if s.len() == 0 {
        Seq::empty()
    } else if s[0] != 0u8 {
        seq![s[0]] + pack(s.subrange(1, s.len() as int))
    } else {
        let k = if zero_run(s) <= 255 {
            zero_run(s)
        } else {
            255
        };
        seq![0u8, k as u8] + pack(s.subrange(k, s.len() as int))
    }
}

#[via_fn]
proof fn pack_decreases(s: Seq<u8>) {
    if s.len() > 0 && s[0] == 0u8 {
        lemma_zero_run(s);
    }
}

/// The unpacked form of the packed bytes from `pos` to the end of `s`.
pub open spec fn unpack_to_end(s: Seq<u8>, pos: int) -> Option<Seq<u8>>
    decreases s.len() - pos,
{
    if pos == s.len() {
        Some(Seq::empty())
    } else if pos < 0 || pos > s.len() {
        None
    } else if s[pos] != 0u8 {
        match unpack_to_end(s, pos + 1) {
            Option::Some(rest) => Some(seq![s[pos]] + rest),
            Option::None => None,
        }
    } else {
        if pos + 2 <= s.len() && s[pos + 1] != 0u8 {
            match unpack_to_end(s, pos + 2) {
                Option::Some(rest) => Some(zeros(s[pos + 1] as int) + rest),
                Option::None => None,
            }
        } else {
            None
        }
    }
}

/// Unpacking the packed form of `s`, laid at `pos` and reaching the end of
/// the buffer, restores `s`.
pub proof fn lemma_unpack_pack(buf: Seq<u8>, pos: int, s: Seq<u8>)
    requires
        0 <= pos <= buf.len(),
        buf.subrange(pos, buf.len() as int) == pack(s),
    ensures
        unpack_to_end(buf, pos) == Some(s),
    decreases s.len(),
{
    let tail = buf.subrange(pos, buf.len() as int);
    if s.len() == 0 {
        assert(pos == buf.len());
        assert(s =~= Seq::<u8>::empty());
    } else if s[0] != 0u8 {
        let rest = s.subrange(1, s.len() as int);
        assert(pack(s) == seq![s[0]] + pack(rest));
        assert(tail.len() == pack(s).len());
        assert(tail[0] == pack(s)[0]);
        assert(buf[pos] == tail[0]);
        assert(buf[pos] == s[0]);
        assert forall|i: int|
            0 <= i < buf.len() - pos - 1 implies buf.subrange(pos + 1, buf.len() as int)[i]
            == pack(rest)[i] by {
            assert(tail[1 + i] == pack(s)[1 + i]);
            assert(buf.subrange(pos + 1, buf.len() as int)[i] == buf[pos + 1 + i]);
            assert(tail[1 + i] == buf[pos + 1 + i]);
        }
        assert(buf.subrange(pos + 1, buf.len() as int) =~= pack(rest));
        lemma_unpack_pack(buf, pos + 1, rest);
        assert(seq![s[0]] + rest =~= s);
    } else {
        lemma_zero_run(s);
        let k = if zero_run(s) <= 255 {
            zero_run(s)
        } else {
            255
        };
        assert(1 <= k <= s.len());
        let rest = s.subrange(k, s.len() as int);
        assert(pack(s) == seq![0u8, k as u8] + pack(rest));
        assert(tail.len() == pack(s).len());
        assert(tail[0] == pack(s)[0]);
        assert(tail[1] == pack(s)[1]);
        assert(buf[pos] == tail[0]);
        assert(buf[pos + 1] == tail[1]);
        assert(buf[pos + 1] == k as u8);
        assert forall|i: int|
            0 <= i < buf.len() - pos - 2 implies buf.subrange(pos + 2, buf.len() as int)[i]
            == pack(rest)[i] by {
            assert(tail[2 + i] == pack(s)[2 + i]);
            assert(buf.subrange(pos + 2, buf.len() as int)[i] == buf[pos + 2 + i]);
            assert(tail[2 + i] == buf[pos + 2 + i]);
        }
        assert(buf.subrange(pos + 2, buf.len() as int) =~= pack(rest));
        lemma_unpack_pack(buf, pos + 2, rest);
        assert(zeros(k) =~= s.subrange(0, k));
        assert(zeros((k as u8) as int) + rest =~= s);
    }
}

/// Packs `data`, appending to `out`.
#[verifier::loop_isolation(false)]
#[verifier::rlimit(100)]
pub fn pack_exec(out: &mut Vec<u8>, data: &Vec<u8>)
    ensures
        final(out)@ == old(out)@ + pack(data@),
{
    let n = data.len();
    proof {
        assert(data@.subrange(0, n as int) =~= data@);
    }
    let mut i: usize = 0;
    while i < n
        invariant
            i <= n,
            out@ + pack(data@.subrange(i as int, n as int)) == old(out)@ + pack(data@),
        decreases n - i,
    {
        let ghost prev = out@;
        let ghost suffix = data@.subrange(i as int, n as int);
        if data[i] != 0 {
            out.push(data[i]);
            proof {
                assert(suffix[0] == data@[i as int]);
                assert(data@.subrange(i + 1, n as int) =~= suffix.subrange(1, suffix.len() as int));
                assert(out@ + pack(data@.subrange(i + 1, n as int)) =~= prev + pack(suffix));
            }
            i = i + 1;
        } else {
            let mut j: usize = i;
            while j < n && j - i < 255 && data[j] == 0
                invariant
                    i <= j <= n,
                    j - i <= 255,
                    forall|l: int| i <= l < j ==> data@[l] == 0u8,
                decreases n - j,
            {
                j = j + 1;
            }
            let k = j - i;
            proof {
                lemma_zero_run(suffix);
                assert forall|l: int| 0 <= l < k implies suffix[l] == 0u8 by {
                    assert(data@[i + l] == 0u8);
                }
                if k < 255 {
                    if j < n {
                        assert(suffix[k as int] == data@[j as int]);
                        assert(suffix[k as int] != 0u8);
                    }
                    assert(zero_run(suffix) == k as int);
                } else {
                    assert(zero_run(suffix) >= 255);
                }
                assert(k as int == (if zero_run(suffix) <= 255 {
                    zero_run(suffix)
                } else {
                    255
                }));
            }
            out.push(0u8);
            out.push(k as u8);
            proof {
                assert(data@.subrange(i + k, n as int) =~= suffix.subrange(
                    k as int,
                    suffix.len() as int,
                ));
                assert(out@ + pack(data@.subrange(i + k, n as int)) =~= prev + pack(suffix));
            }
            i = j;
        }
    }
    proof {
        assert(pack(data@.subrange(n as int, n as int)) =~= pack(Seq::<u8>::empty()));
        assert(out@ =~= out@ + pack(data@.subrange(n as int, n as int)));
        assert(data@.subrange(0, n as int) =~= data@);
    }
}

/// Joins freshly unpacked bytes onto an already unpacked prefix.
pub open spec fn prepend_bytes(ms: Seq<u8>, o: Option<Seq<u8>>) -> Option<Seq<u8>> {
    match o {
        Option::Some(bs) => Some(ms + bs),
        Option::None => None,
    }
}

/// Unpacks the packed bytes from `pos` to the end of `buf`.
#[verifier::loop_isolation(false)]
#[verifier::rlimit(100)]
pub fn unpack_exec(buf: &Vec<u8>, pos: usize) -> (r: Option<Vec<u8>>)
    requires
        pos <= buf@.len(),
    ensures
        match r {
            Option::Some(bs) => unpack_to_end(buf@, pos as int) == Some(bs@),
            Option::None => unpack_to_end(buf@, pos as int) is None,
        },
{
    let mut acc: Vec<u8> = Vec::new();
    let mut cur: usize = pos;
    while cur < buf.len()
        invariant
            pos <= cur <= buf@.len(),
            prepend_bytes(acc@, unpack_to_end(buf@, cur as int)) == unpack_to_end(
                buf@,
                pos as int,
            ),
        decreases buf@.len() - cur,
    {
        let ghost prev = acc@;
        if buf[cur] != 0 {
            acc.push(buf[cur]);
            proof {
                match unpack_to_end(buf@, cur + 1) {
                    Option::Some(rest) => {
                        assert((prev + seq![buf@[cur as int]]) + rest =~= prev + (seq![
                            buf@[cur as int],
                        ] + rest));
                        assert(acc@ =~= prev + seq![buf@[cur as int]]);
                    },
                    Option::None => (),
                }
            }
            cur = cur + 1;
        } else {
            if buf.len() - cur < 2 || buf[cur + 1] == 0 {
                return None;
            }
            let k = buf[cur + 1];
            let mut c: u8 = 0;
            while c < k
                invariant
                    c <= k,
                    acc@ == prev + zeros(c as int),
                decreases k - c,
            {
                acc.push(0u8);
                proof {
                    assert(acc@ =~= prev + zeros(c + 1));
                }
                c = c + 1;
            }
            proof {
                match unpack_to_end(buf@, cur + 2) {
                    Option::Some(rest) => {
                        assert((prev + zeros(k as int)) + rest =~= prev + (zeros(k as int) + rest));
                    },
                    Option::None => (),
                }
            }
            cur = cur + 2;
        }
    }
    proof {
        assert(acc@ + Seq::<u8>::empty() =~= acc@);
    }
    Some(acc)
}

} // verus!
