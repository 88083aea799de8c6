//! Consistent Overhead Byte Stuffing. The encoding never contains 0x00 and
//! excludes the frame delimiter (the frame layer appends it). A run of 254
//! non-zero bytes is flushed eagerly as a `0xFF` group that carries no implied
//! zero.
use vstd::prelude::*;

verus! {

/// Why [`cobs_decode`] rejected its input.
#[derive(Debug, Clone, Copy, PartialEq, Eq, Structural)]
pub enum CobsError {
    /// The input was empty (a frame must have at least one code byte).
    Empty,
    /// A code byte demanded more data bytes than remain.
    TruncatedGroup,
    /// A literal 0x00 appeared inside the COBS data (illegal).
    InteriorZero,
}

/// The number of leading non-zero bytes of `s`.
pub open spec fn nonzero_run(s: Seq<u8>) -> nat
    decreases s.len(),
{
    if s.len() == 0 || s[0] == 0 {
        0
    } else {
        1 + nonzero_run(s.drop_first())
    }
}

/// The length of the first group: the leading non-zero run, at most 254.
pub open spec fn group_len(s: Seq<u8>) -> nat {
    if nonzero_run(s) < 254 {
        nonzero_run(s)
    } else {
        254
    }
}

/// The COBS encoding of `s`. Each group is a code byte followed by the
/// group's non-zero bytes: a full group of 254 bytes has code `0xFF` and no
/// implied zero; a shorter group has code `len + 1` and stands for its bytes
/// followed by one zero, except for the last group of the input.
pub open spec fn spec_cobs_encode(s: Seq<u8>) -> Seq<u8>
    decreases s.len(),
{
    let r = group_len(s);
    if r == 254 {
        seq![0xFFu8] + s.subrange(0, 254) + if s.len() <= 254 {
            Seq::<u8>::empty()
        } else {
            spec_cobs_encode(s.skip(254))
        }
    } else if r < s.len() {
        seq![(r + 1) as u8] + s.subrange(0, r as int) + spec_cobs_encode(s.skip((r + 1) as int))
    } else {
        seq![(r + 1) as u8] + s
    }
}

/// Decode a non-empty run of COBS groups.
pub open spec fn spec_cobs_groups(d: Seq<u8>) -> Result<Seq<u8>, CobsError>
    decreases d.len(),
{
    if d.len() == 0 {
        Ok(Seq::<u8>::empty())
    } else {
        let code = d[0];
        if code == 0 {
            Err(CobsError::InteriorZero)
        } else if code as int > d.len() {
            Err(CobsError::TruncatedGroup)
        } else if exists|k: int| 1 <= k < code && d[k] == 0 {
            Err(CobsError::InteriorZero)
        } else {
            let group = d.subrange(1, code as int);
            let rest = d.skip(code as int);
            if rest.len() == 0 {
                Ok(group)
            } else {
                match spec_cobs_groups(rest) {
                    Ok(r) => Ok(
                        group + if code != 0xFF {
                            seq![0u8]
                        } else {
                            Seq::<u8>::empty()
                        } + r,
                    ),
                    Err(e) => Err(e),
                }
            }
        }
    }
}

/// The COBS decoding of a delimiter-stripped buffer, or the error class.
pub open spec fn spec_cobs_decode(d: Seq<u8>) -> Result<Seq<u8>, CobsError> {
    if d.len() == 0 {
        Err(CobsError::Empty)
    } else {
        spec_cobs_groups(d)
    }
}

/// `prefix` prepended to a successful result; errors pass through.
pub open spec fn prepend(prefix: Seq<u8>, r: Result<Seq<u8>, CobsError>) -> Result<
    Seq<u8>,
    CobsError,
> {
    match r {
        Ok(v) => Ok(prefix + v),
        Err(e) => Err(e),
    }
}

proof fn lemma_run_exact(s: Seq<u8>, k: nat)
    requires
        k <= s.len(),
        forall|j: int| 0 <= j < k ==> s[j] != 0,
        k == s.len() || s[k as int] == 0,
    ensures
        nonzero_run(s) == k,
    decreases k,
{
    if k > 0 {
        lemma_run_exact(s.drop_first(), (k - 1) as nat);
    }
}

proof fn lemma_run_at_least(s: Seq<u8>, k: nat)
    requires
        k <= s.len(),
        forall|j: int| 0 <= j < k ==> s[j] != 0,
    ensures
        nonzero_run(s) >= k,
    decreases k,
{
    if k > 0 {
        lemma_run_at_least(s.drop_first(), (k - 1) as nat);
    }
}

proof fn lemma_run_facts(s: Seq<u8>)
    ensures
        nonzero_run(s) <= s.len(),
        forall|j: int| 0 <= j < nonzero_run(s) ==> s[j] != 0,
        nonzero_run(s) < s.len() ==> s[nonzero_run(s) as int] == 0,
    decreases s.len(),
{
    if s.len() > 0 && s[0] != 0 {
        lemma_run_facts(s.drop_first());
        assert forall|j: int| 0 <= j < nonzero_run(s) implies s[j] != 0 by {
            if j > 0 {
                assert(s[j] == s.drop_first()[j - 1]);
            }
        }
    }
}

/// COBS-encode. The result never contains 0x00 and does NOT include the frame
/// delimiter. `cobs_encode(&[]) == [0x01]`.
pub fn cobs_encode(data: &[u8]) -> (res: Vec<u8>)
    ensures
        res@ == spec_cobs_encode(data@),
{
    let n = data.len();
    let mut out: Vec<u8> = Vec::new();
    let mut i: usize = 0;
    assert(data@.skip(0) =~= data@);
    assert(out@ + spec_cobs_encode(data@) =~= spec_cobs_encode(data@));
    loop
        invariant
            n == data@.len(),
            i <= n,
            out@ + spec_cobs_encode(data@.skip(i as int)) == spec_cobs_encode(data@),
        decreases n + 1 - i,
    {
        let ghost s = data@.skip(i as int);
        let mut r: usize = 0;
        while i + r < n && r < 254 && data[i + r] != 0
            invariant
                n == data@.len(),
                i <= n,
                r <= 254,
                i + r <= n,
                s == data@.skip(i as int),
                forall|j: int| 0 <= j < r ==> s[j] != 0,
            decreases 254 - r,
        {
            r = r + 1;
        }
        proof {
            lemma_run_facts(s);
            if r < 254 {
                lemma_run_exact(s, r as nat);
            } else {
                lemma_run_at_least(s, 254);
            }
            assert(group_len(s) == r);
        }
        let ghost out_before = out@;
        if r == 254 {
            out.push(0xFF);
            let mut k: usize = 0;
            while k < 254
                invariant
                    n == data@.len(),
                    i + 254 <= n,
                    out_before == out_before,
                    k <= 254,
                    out@ == out_before.push(0xFFu8) + data@.subrange(i as int, i + k),
                decreases 254 - k,
            {
                out.push(data[i + k]);
                k = k + 1;
                assert(data@.subrange(i as int, i + k) =~= data@.subrange(i as int, i + k - 1).push(data@[i + k - 1]));
            }
            proof {
                assert(s.subrange(0, 254) =~= data@.subrange(i as int, i + 254));
                assert(s.skip(254) =~= data@.skip(i + 254));
            }
            i = i + 254;
            if i == n {
                assert(spec_cobs_encode(s) =~= seq![0xFFu8] + s.subrange(0, 254));
                assert(out@ =~= spec_cobs_encode(data@));
                return out;
            }
        } else {
            let code: u8 = (r + 1) as u8;
            out.push(code);
            let mut k: usize = 0;
            while k < r
                invariant
                    n == data@.len(),
                    i + r <= n,
                    k <= r,
                    out@ == out_before.push(code) + data@.subrange(i as int, i + k),
                decreases r - k,
            {
                out.push(data[i + k]);
                k = k + 1;
                assert(data@.subrange(i as int, i + k) =~= data@.subrange(i as int, i + k - 1).push(data@[i + k - 1]));
            }
            if i + r == n {
                proof {
                    assert(s =~= data@.subrange(i as int, i + r));
                }
                assert(out@ =~= spec_cobs_encode(data@));
                return out;
            }
            proof {
                assert(s.subrange(0, r as int) =~= data@.subrange(i as int, i + r));
                assert(s.skip((r + 1) as int) =~= data@.skip(i + r + 1));
            }
            i = i + r + 1;
        }
    }
}

/// COBS-decode a delimiter-stripped buffer, or a classified error.
pub fn cobs_decode(data: &[u8]) -> (res: Result<Vec<u8>, CobsError>)
    ensures
        match res {
            Ok(v) => spec_cobs_decode(data@) == Ok::<Seq<u8>, CobsError>(v@),
            Err(e) => spec_cobs_decode(data@) == Err::<Seq<u8>, CobsError>(e),
        },
{
    let n = data.len();
    if n == 0 {
        return Err(CobsError::Empty);
    }
    let mut out: Vec<u8> = Vec::new();
    let mut i: usize = 0;
    assert(data@.skip(0) =~= data@);
    while i < n
        invariant
            n == data@.len(),
            i <= n,
            prepend(out@, spec_cobs_groups(data@.skip(i as int))) == spec_cobs_groups(data@),
        decreases n - i,
    {
        let ghost d = data@.skip(i as int);
        let ghost out0 = out@;
        let ghost i0 = i;
        let code = data[i];
        if code == 0 {
            assert(spec_cobs_groups(d) == Err::<Seq<u8>, CobsError>(CobsError::InteriorZero));
            return Err(CobsError::InteriorZero);
        }
        i = i + 1;
        let ndata: usize = (code - 1) as usize;
        if ndata > n - i {
            assert(spec_cobs_groups(d) == Err::<Seq<u8>, CobsError>(CobsError::TruncatedGroup));
            return Err(CobsError::TruncatedGroup);
        }
        let mut k: usize = 0;
        while k < ndata
            invariant
                n == data@.len(),
                i0 < n,
                i == i0 + 1 + k,
                i0 + 1 + ndata <= n,
                k <= ndata,
                ndata == code - 1,
                d == data@.skip(i0 as int),
                d.len() == n - i0,
                d[0] == code,
                prepend(out0, spec_cobs_groups(d)) == spec_cobs_groups(data@),
                out@ == out0 + d.subrange(1, k + 1),
                forall|j: int| 1 <= j < k + 1 ==> d[j] != 0,
            decreases ndata - k,
        {
            assert(d[k + 1] == data@[i as int]);
            if data[i] == 0 {
                assert(d[k + 1] == 0);
                assert(exists|j: int| 1 <= j < code && d[j] == 0);
                assert(spec_cobs_groups(d) == Err::<Seq<u8>, CobsError>(CobsError::InteriorZero));
                return Err(CobsError::InteriorZero);
            }
            out.push(data[i]);
            i = i + 1;
            k = k + 1;
            assert(d.subrange(1, k + 1) =~= d.subrange(1, k as int).push(d[k as int]));
        }
        proof {
            assert(!(exists|j: int| 1 <= j < code && d[j] == 0));
            assert(d.skip(code as int) =~= data@.skip(i as int));
        }
        if code != 0xFF && i < n {
            out.push(0);
        }
        proof {
            let group = d.subrange(1, code as int);
            let rest = d.skip(code as int);
            if rest.len() == 0 {
                assert(out@ =~= out0 + group);
                assert(prepend(out@, spec_cobs_groups(rest)) == prepend(out0, spec_cobs_groups(d)));
            } else {
                let z = if code != 0xFF {
                    seq![0u8]
                } else {
                    Seq::<u8>::empty()
                };
                assert(out@ =~= out0 + group + z);
                match spec_cobs_groups(rest) {
                    Ok(r) => {
                        assert(out@ + r =~= out0 + (group + z + r));
                    },
                    Err(e) => {},
                }
            }
        }
    }
    assert(data@.skip(n as int) =~= Seq::<u8>::empty());
    assert(out@ + Seq::<u8>::empty() =~= out@);
    Ok(out)
}

proof fn lemma_encode_facts(s: Seq<u8>)
    ensures
        spec_cobs_encode(s).len() > 0,
        forall|k: int| 0 <= k < spec_cobs_encode(s).len() ==> spec_cobs_encode(s)[k] != 0,
        spec_cobs_groups(spec_cobs_encode(s)) == Ok::<Seq<u8>, CobsError>(s),
    decreases s.len(),
{
    lemma_run_facts(s);
    let r = group_len(s);
    let e = spec_cobs_encode(s);
    if r == 254 {
        let g = s.subrange(0, 254);
        if s.len() <= 254 {
            assert(e =~= seq![0xFFu8] + g);
            assert(g =~= s);
            assert(e.skip(255) =~= Seq::<u8>::empty());
            assert(e.subrange(1, 255) =~= g);
        } else {
            let t = s.skip(254);
            lemma_encode_facts(t);
            let et = spec_cobs_encode(t);
            assert(e =~= seq![0xFFu8] + g + et);
            assert(e.skip(255) =~= et);
            assert(e.subrange(1, 255) =~= g);
            assert forall|k: int| 0 <= k < e.len() implies e[k] != 0 by {
                if k >= 255 {
                    assert(e[k] == et[k - 255]);
                }
            }
            assert(g + Seq::<u8>::empty() + t =~= s);
        }
    } else if r < s.len() {
        let g = s.subrange(0, r as int);
        let t = s.skip((r + 1) as int);
        lemma_encode_facts(t);
        let et = spec_cobs_encode(t);
        let c = (r + 1) as u8;
        assert(e =~= seq![c] + g + et);
        assert(e.skip((r + 1) as int) =~= et);
        assert(e.subrange(1, (r + 1) as int) =~= g);
        assert forall|k: int| 0 <= k < e.len() implies e[k] != 0 by {
            if k > r {
                assert(e[k] == et[k - r - 1]);
            }
        }
        assert(g + seq![0u8] + t =~= s);
    } else {
        let c = (r + 1) as u8;
        assert(e =~= seq![c] + s);
        assert(e.skip((r + 1) as int) =~= Seq::<u8>::empty());
        assert(e.subrange(1, (r + 1) as int) =~= s);
    }
}

/// COBS output never contains the frame delimiter 0x00.
pub proof fn lemma_cobs_encode_no_zero(s: Seq<u8>)
    ensures
        forall|k: int| 0 <= k < spec_cobs_encode(s).len() ==> spec_cobs_encode(s)[k] != 0,
{
    lemma_encode_facts(s);
}

/// Decoding an encoding gives back the original bytes.
pub proof fn lemma_cobs_round_trip(s: Seq<u8>)
    ensures
        spec_cobs_decode(spec_cobs_encode(s)) == Ok::<Seq<u8>, CobsError>(s),
{
    lemma_encode_facts(s);
}

} // verus!
