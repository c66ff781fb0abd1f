//! Byte-level text helpers: prefix/suffix tests, the file-name component of
//! a slash-separated path, and trimming of a trailing `.png` extension.

use vstd::prelude::*;

verus! {

/// `pre` is a prefix of `s`.
pub open spec fn spec_starts_with(s: Seq<u8>, pre: Seq<u8>) -> bool {
    pre.len() <= s.len() && s.subrange(0, pre.len() as int) == pre
}

/// `suf` is a suffix of `s`.
pub open spec fn spec_ends_with(s: Seq<u8>, suf: Seq<u8>) -> bool {
    suf.len() <= s.len() && s.subrange(s.len() - suf.len(), s.len() as int) == suf
}

/// The suffix of `p` after its last `/`, empty when `p` ends in `/`.
pub open spec fn spec_last_component(p: Seq<u8>) -> Seq<u8>
    decreases p.len(),
{
    if p.len() == 0 {
        seq![]
    } else if p.last() == 0x2Fu8 {
        seq![]
    } else {
        spec_last_component(p.drop_last()).push(p.last())
    }
}

/// The file name of a slash-separated path, as path components see it:
/// trailing slashes are ignored and `.` components are normalized away
/// unless one begins the path; empty when what remains is no component, a
/// leading `.`, or `..`.
pub open spec fn spec_file_name(p: Seq<u8>) -> Seq<u8>
    decreases p.len(),
{
    if p.len() == 0 {
        seq![]
    } else if p.last() == 0x2Fu8 {
        spec_file_name(p.drop_last())
    } else {
        let f = spec_last_component(p);
        if f == seq![0x2Eu8] {
            if p.len() == 1 {
                seq![]
            } else {
                spec_file_name(p.drop_last())
            }
        } else if f == seq![0x2Eu8, 0x2Eu8] {
            seq![]
        } else {
            f
        }
    }
}

/// `n` with every trailing `.png` repetition removed.
pub open spec fn spec_trim_png(n: Seq<u8>) -> Seq<u8>
    decreases n.len(),
{
    if n.len() >= 4 && n.subrange(n.len() - 4, n.len() as int) == seq![
        0x2Eu8,
        0x70u8,
        0x6Eu8,
        0x67u8,
    ] {
        spec_trim_png(n.subrange(0, n.len() - 4))
    } else {
        n
    }
}

/// Whether `s` starts with `pre`.
pub fn starts_with_bytes(s: &[u8], pre: &[u8]) -> (r: bool)
    ensures
        r == spec_starts_with(s@, pre@),
{
    if pre.len() > s.len() {
        return false;
    }
    let mut i: usize = 0;
    while i < pre.len()
        invariant
            pre@.len() <= s@.len(),
            i <= pre@.len(),
            forall|j: int| 0 <= j < i ==> s@[j] == pre@[j],
        decreases pre@.len() - i,
    {
        if s[i] != pre[i] {
            proof {
                let sub = s@.subrange(0, pre@.len() as int);
                if sub == pre@ {
                    assert(s@[i as int] == sub[i as int]);
                }
            }
            return false;
        }
        i = i + 1;
    }
    proof {
        assert(s@.subrange(0, pre@.len() as int) =~= pre@);
    }
    true
}

/// Whether `s` ends with `suf`.
pub fn ends_with_bytes(s: &[u8], suf: &[u8]) -> (r: bool)
    ensures
        r == spec_ends_with(s@, suf@),
{
    if suf.len() > s.len() {
        return false;
    }
    let start: usize = s.len() - suf.len();
    let mut i: usize = 0;
    while i < suf.len()
        invariant
            suf@.len() <= s@.len(),
            s@.len() <= usize::MAX,
            start == s@.len() - suf@.len(),
            i <= suf@.len(),
            forall|j: int| 0 <= j < i ==> s@[start + j] == suf@[j],
        decreases suf@.len() - i,
    {
        if s[start + i] != suf[i] {
            proof {
                let sub = s@.subrange(s@.len() - suf@.len(), s@.len() as int);
                if sub == suf@ {
                    assert(s@[start + i] == sub[i as int]);
                }
            }
            return false;
        }
        i = i + 1;
    }
    proof {
        assert(s@.subrange(s@.len() - suf@.len(), s@.len() as int) =~= suf@);
    }
    true
}

/// `spec_last_component` is the suffix from any cut point that sits right
/// after the last slash.
proof fn lemma_last_component_skip(p: Seq<u8>, k: int)
    requires
        0 <= k <= p.len(),
        forall|j: int| k <= j < p.len() ==> p[j] != 0x2Fu8,
        k == 0 || p[k - 1] == 0x2Fu8,
    ensures
        spec_last_component(p) == p.skip(k),
    decreases p.len(),
{
    if p.len() == 0 {
        assert(p.skip(k) =~= seq![]);
    } else if p.len() == k {
        assert(p.last() == p[k - 1]);
        assert(p.skip(k) =~= seq![]);
    } else {
        lemma_last_component_skip(p.drop_last(), k);
        assert(p.drop_last().skip(k).push(p.last()) =~= p.skip(k));
    }
}

/// The file name of a slash-separated path, as a subslice: the last
/// component, ignoring trailing slashes and `.` components, and empty for
/// `..` or nothing.
pub fn file_name_of<'a>(p: &'a [u8]) -> (r: &'a [u8])
    ensures
        r@ == spec_file_name(p@),
{
    let mut e: usize = p.len();
    proof {
        assert(p@.take(p@.len() as int) =~= p@);
    }
    loop
        invariant
            e <= p@.len(),
            spec_file_name(p@) == spec_file_name(p@.take(e as int)),
        ensures
            e <= p@.len(),
            spec_file_name(p@) == spec_file_name(p@.take(e as int)),
            e > 0 ==> p@[e - 1] != 0x2Fu8,
            e > 0 ==> !(p@[e - 1] == 0x2Eu8 && (e == 1 || p@[e - 2] == 0x2Fu8)),
        decreases e,
    {
        if e == 0 {
            break;
        }
        if p[e - 1] == 0x2F {
            proof {
                let cur = p@.take(e as int);
                assert(cur.last() == p@[e - 1]);
                assert(cur.drop_last() =~= p@.take(e - 1));
            }
            e = e - 1;
        } else if p[e - 1] == 0x2E && (e == 1 || p[e - 2] == 0x2F) {
            proof {
                let cur = p@.take(e as int);
                assert(cur.last() == p@[e - 1]);
                lemma_last_component_skip(cur, e - 1);
                assert(spec_last_component(cur) =~= seq![0x2Eu8]);
                assert(cur.drop_last() =~= p@.take(e - 1));
            }
            e = e - 1;
        } else {
            break;
        }
    }
    if e == 0 {
        return &p[0..0];
    }
    let mut k: usize = e;
    while k > 0 && p[k - 1] != 0x2F
        invariant
            k <= e,
            e <= p@.len(),
            forall|j: int| k <= j < e ==> p@[j] != 0x2Fu8,
        decreases k,
    {
        k = k - 1;
    }
    proof {
        let cur = p@.take(e as int);
        lemma_last_component_skip(cur, k as int);
        assert(spec_last_component(cur) =~= p@.subrange(k as int, e as int));
    }
    if e - k == 2 && p[k] == 0x2E && p[k + 1] == 0x2E {
        proof {
            let cur = p@.take(e as int);
            assert(spec_last_component(cur) =~= seq![0x2Eu8, 0x2Eu8]);
        }
        return &p[0..0];
    }
    let r = &p[k..e];
    proof {
        let cur = p@.take(e as int);
        let f = spec_last_component(cur);
        if f == seq![0x2Eu8] {
            assert(p@[k as int] == f[0]);
            assert(e - k == 1);
        }
        if f == seq![0x2Eu8, 0x2Eu8] {
            assert(p@[k as int] == f[0]);
            assert(p@[k + 1] == f[1]);
            assert(e - k == 2);
        }
        assert(r@ =~= p@.subrange(k as int, e as int));
    }
    r
}

/// `n` with every trailing `.png` repetition removed, as a subslice.
pub fn trim_png_suffix<'a>(n: &'a [u8]) -> (r: &'a [u8])
    ensures
        r@ == spec_trim_png(n@),
{
    let mut e: usize = n.len();
    proof {
        assert(n@.subrange(0, n@.len() as int) =~= n@);
    }
    while e >= 4 && n[e - 4] == 0x2E && n[e - 3] == 0x70 && n[e - 2] == 0x6E && n[e - 1] == 0x67
        invariant
            e <= n@.len(),
            spec_trim_png(n@) == spec_trim_png(n@.subrange(0, e as int)),
        decreases e,
    {
        proof {
            let cur = n@.subrange(0, e as int);
            assert(cur.subrange(e - 4, e as int) =~= seq![0x2Eu8, 0x70u8, 0x6Eu8, 0x67u8]);
            assert(cur.subrange(0, e - 4) =~= n@.subrange(0, e - 4));
        }
        e = e - 4;
    }
    let r = &n[0..e];
    proof {
        let cur = n@.subrange(0, e as int);
        if e >= 4 {
            let tail = cur.subrange(e - 4, e as int);
            if tail == seq![0x2Eu8, 0x70u8, 0x6Eu8, 0x67u8] {
                assert(n@[e - 4] == tail[0]);
                assert(n@[e - 3] == tail[1]);
                assert(n@[e - 2] == tail[2]);
                assert(n@[e - 1] == tail[3]);
            }
        }
        assert(spec_trim_png(cur) == cur);
        assert(r@ =~= cur);
    }
    r
}

} // verus!
