//! Media-facing text logic: recognizing audio files by extension, and
//! counting the media-segment references in a transcoder's manifest. Both
//! work on the UTF-8 bytes of the text involved.

use vstd::prelude::*;
use vstd::string::StringSliceAdditionalSpecFns;

verus! {

/// The index of the last `.` in a file name's bytes, or -1 if there is none.
pub open spec fn last_dot(s: Seq<u8>) -> int
    decreases s.len(),
{
    if s.len() == 0 {
        -1
    } else if s[s.len() - 1] == 0x2e {
        s.len() - 1
    } else {
        last_dot(s.drop_last())
    }
}

/// An ASCII byte lowercased; every other byte is untouched.
pub open spec fn lower_byte(b: u8) -> u8 {
    if 0x41 <= b && b <= 0x5a {
        (b + 0x20) as u8
    } else {
        b
    }
}

/// The lowercased extension of a file name: what follows the last dot.
pub open spec fn ext_of(s: Seq<u8>) -> Seq<u8> {
    s.subrange(last_dot(s) + 1, s.len() as int).map_values(|b: u8| lower_byte(b))
}

/// The fixed allow-list of audio extensions: wav, mp3, mp4, flac, ogg, m4a,
/// aac (each written as its ASCII bytes).
pub open spec fn allowed_ext(e: Seq<u8>) -> bool {
    ||| e == seq![0x77u8, 0x61u8, 0x76u8]  // wav
    ||| e == seq![0x6du8, 0x70u8, 0x33u8]  // mp3
    ||| e == seq![0x6du8, 0x70u8, 0x34u8]  // mp4
    ||| e == seq![0x66u8, 0x6cu8, 0x61u8, 0x63u8]  // flac
    ||| e == seq![0x6fu8, 0x67u8, 0x67u8]  // ogg
    ||| e == seq![0x6du8, 0x34u8, 0x61u8]  // m4a
    ||| e == seq![0x61u8, 0x61u8, 0x63u8]  // aac
}

/// A recognizable audio file name: it has an extension — a dot that is
/// neither the first character nor absent — and, lowercased, the extension is
/// on the allow-list.
pub open spec fn is_audio_name(s: Seq<u8>) -> bool {
    last_dot(s) > 0 && allowed_ext(ext_of(s))
}

/// If position `j` holds a dot and nothing after it does, `j` is the last dot.
proof fn lemma_last_dot_at(s: Seq<u8>, j: int)
    requires
        0 <= j < s.len(),
        s[j] == 0x2e,
        forall|k: int| j < k < s.len() ==> s[k] != 0x2e,
    ensures
        last_dot(s) == j,
    decreases s.len(),
{
    if j == s.len() - 1 {
    } else {
        assert(s.drop_last()[j] == s[j]);
        lemma_last_dot_at(s.drop_last(), j);
    }
}

/// A name without a dot has no last dot.
proof fn lemma_last_dot_none(s: Seq<u8>)
    requires
        forall|k: int| 0 <= k < s.len() ==> s[k] != 0x2e,
    ensures
        last_dot(s) == -1,
    decreases s.len(),
{
    if s.len() == 0 {
    } else {
        lemma_last_dot_none(s.drop_last());
    }
}

/// `lower_byte`, executably.
fn lower_byte_exec(b: u8) -> (r: u8)
    ensures
        r == lower_byte(b),
{
    if 0x41 <= b && b <= 0x5a {
        b + 0x20
    } else {
        b
    }
}

/// Whether a byte vector equals the three given bytes.
fn eq3(v: &Vec<u8>, a: u8, b: u8, c: u8) -> (r: bool)
    ensures
        r == (v@ == seq![a, b, c]),
{
    let r = v.len() == 3 && v[0] == a && v[1] == b && v[2] == c;
    proof {
        if r {
            assert(v@ =~= seq![a, b, c]);
        } else {
            if v@ == seq![a, b, c] {
                assert(v@.len() == 3);
                assert(v@[0] == a && v@[1] == b && v@[2] == c);
            }
        }
    }
    r
}

/// Whether a byte vector equals the four given bytes.
fn eq4(v: &Vec<u8>, a: u8, b: u8, c: u8, d: u8) -> (r: bool)
    ensures
        r == (v@ == seq![a, b, c, d]),
{
    let r = v.len() == 4 && v[0] == a && v[1] == b && v[2] == c && v[3] == d;
    proof {
        if r {
            assert(v@ =~= seq![a, b, c, d]);
        } else {
            if v@ == seq![a, b, c, d] {
                assert(v@.len() == 4);
                assert(v@[0] == a && v@[1] == b && v@[2] == c && v@[3] == d);
            }
        }
    }
    r
}

/// Whether this file name carries one of the recognized audio extensions,
/// compared case-insensitively; how the fetch step tells its produced audio
/// file apart from everything else in the working directory.
pub fn is_audio_file(name: &str) -> (r: bool)
    ensures
        r == is_audio_name(name.spec_bytes()),
{
    let bytes = name.as_bytes_vec();
    let n = bytes.len();

    // Find the last dot.
    let mut i: usize = n;
    while i > 0 && bytes[i - 1] != 0x2e
        invariant
            i <= n,
            n == bytes@.len(),
            forall|k: int| i <= k < n ==> bytes@[k] != 0x2e,
        decreases i,
    {
        i -= 1;
    }
    if i == 0 {
        proof {
            lemma_last_dot_none(bytes@);
        }
        return false;
    }
    let dot = i - 1;
    proof {
        lemma_last_dot_at(bytes@, dot as int);
    }
    if dot == 0 {
        return false;
    }

    // Collect the lowercased extension.
    let mut ext: Vec<u8> = Vec::new();
    let mut j = dot + 1;
    while j < n
        invariant
            dot + 1 <= j <= n,
            n == bytes@.len(),
            ext@.len() == j - dot - 1,
            forall|p: int| 0 <= p < ext@.len() ==> ext@[p] == lower_byte(bytes@[dot + 1 + p]),
        decreases n - j,
    {
        ext.push(lower_byte_exec(bytes[j]));
        j += 1;
    }
    proof {
        assert(ext@ =~= ext_of(bytes@));
    }

    eq3(&ext, 0x77, 0x61, 0x76) || eq3(&ext, 0x6d, 0x70, 0x33) || eq3(&ext, 0x6d, 0x70, 0x34)
        || eq4(&ext, 0x66, 0x6c, 0x61, 0x63) || eq3(&ext, 0x6f, 0x67, 0x67) || eq3(
        &ext,
        0x6d,
        0x34,
        0x61,
    ) || eq3(&ext, 0x61, 0x61, 0x63)
}

/// The index of the first newline byte, or the length if there is none.
pub open spec fn first_nl(s: Seq<u8>) -> int
    decreases s.len(),
{
    if s.len() == 0 {
        0
    } else if s[0] == 0x0a {
        0
    } else {
        1 + first_nl(s.drop_first())
    }
}

/// The first newline lies within the sequence.
pub proof fn lemma_first_nl_bounds(s: Seq<u8>)
    ensures
        0 <= first_nl(s) <= s.len(),
        first_nl(s) < s.len() ==> s[first_nl(s)] == 0x0a,
        forall|k: int| 0 <= k < first_nl(s) ==> s[k] != 0x0a,
    decreases s.len(),
{
    if s.len() == 0 {
    } else if s[0] == 0x0a {
    } else {
        lemma_first_nl_bounds(s.drop_first());
        assert forall|k: int| 0 <= k < first_nl(s) implies s[k] != 0x0a by {
            if k > 0 {
                assert(s.drop_first()[k - 1] == s[k]);
            }
        }
    }
}

/// If nothing before `j` is a newline and `j` is one (or the end), `j` is the
/// first newline.
proof fn lemma_first_nl_at(s: Seq<u8>, j: int)
    requires
        0 <= j <= s.len(),
        forall|k: int| 0 <= k < j ==> s[k] != 0x0a,
        j < s.len() ==> s[j] == 0x0a,
    ensures
        first_nl(s) == j,
    decreases s.len(),
{
    if s.len() == 0 {
    } else if j == 0 {
    } else {
        assert(s[0] != 0x0a);
        assert forall|k: int| 0 <= k < j - 1 implies s.drop_first()[k] != 0x0a by {
            assert(s.drop_first()[k] == s[k + 1]);
        }
        assert(j - 1 < s.drop_first().len() ==> s.drop_first()[j - 1] == s[j]);
        lemma_first_nl_at(s.drop_first(), j - 1);
    }
}

#[via_fn]
proof fn ts_count_decreases(s: Seq<u8>)
{
    lemma_first_nl_bounds(s);
}

/// Whether a manifest line references a media segment: after dropping one
/// trailing carriage return, it ends in `.ts`.
pub open spec fn is_ts_line(l: Seq<u8>) -> bool {
    let t = if l.len() > 0 && l[l.len() - 1] == 0x0d {
        l.drop_last()
    } else {
        l
    };
    t.len() >= 3 && t[t.len() - 3] == 0x2e && t[t.len() - 2] == 0x74 && t[t.len() - 1] == 0x73
}

/// How many lines of a manifest reference a media segment. Lines are split at
/// newline bytes, as the transcoder writes them; a manifest with no such line
/// counts zero, which is representable, not an error.
pub open spec fn ts_count(s: Seq<u8>) -> nat
    decreases s.len() via ts_count_decreases
{
    if s.len() == 0 {
        0
    } else {
        let n = first_nl(s);
        let line = s.subrange(0, n);
        let rest = if n == s.len() {
            Seq::<u8>::empty()
        } else {
            s.subrange(n + 1, s.len() as int)
        };
        (if is_ts_line(line) {
            1nat
        } else {
            0nat
        }) + ts_count(rest)
    }
}

/// Counts the media-segment references in a manifest, exactly as `ts_count`
/// reads it.
pub fn count_ts_segments(manifest: &Vec<u8>) -> (r: usize)
    ensures
        r == ts_count(manifest@),
{
    let n = manifest.len();
    let mut pos: usize = 0;
    let mut count: usize = 0;
    proof {
        assert(manifest@.subrange(0, n as int) =~= manifest@);
    }
    while pos < n
        invariant
            pos <= n,
            n == manifest@.len(),
            count <= pos,
            count + ts_count(manifest@.subrange(pos as int, n as int)) == ts_count(manifest@),
        decreases n - pos,
    {
        // Find the end of the current line.
        let mut j = pos;
        while j < n && manifest[j] != 0x0a
            invariant
                pos <= j <= n,
                n == manifest@.len(),
                forall|k: int| pos <= k < j ==> manifest@[k] != 0x0a,
            decreases n - j,
        {
            j += 1;
        }

        // Strip one trailing carriage return, then test for the `.ts` suffix.
        let mut end = j;
        if end > pos && manifest[end - 1] == 0x0d {
            end -= 1;
        }
        let is_ts = end - pos >= 3 && manifest[end - 3] == 0x2e && manifest[end - 2] == 0x74
            && manifest[end - 1] == 0x73;

        proof {
            let suf = manifest@.subrange(pos as int, n as int);
            assert forall|k: int| 0 <= k < j - pos implies suf[k] != 0x0a by {
                assert(suf[k] == manifest@[pos + k]);
            }
            assert((j - pos) < suf.len() ==> suf[j - pos] == manifest@[j as int]);
            lemma_first_nl_at(suf, j - pos);
            let line = suf.subrange(0, j - pos);
            assert(line =~= manifest@.subrange(pos as int, j as int));
            let t = if line.len() > 0 && line[line.len() - 1] == 0x0d {
                line.drop_last()
            } else {
                line
            };
            assert(t =~= manifest@.subrange(pos as int, end as int));
            assert(is_ts == is_ts_line(line));
            if j == n {
                assert(ts_count(suf) == (if is_ts_line(line) {
                    1nat
                } else {
                    0nat
                }) + ts_count(Seq::<u8>::empty()));
            } else {
                assert(suf.subrange(j - pos + 1, suf.len() as int) =~= manifest@.subrange(
                    j + 1,
                    n as int,
                ));
            }
        }
        if is_ts {
            count += 1;
        }
        pos = if j < n {
            j + 1
        } else {
            n
        };
    }
    proof {
        assert(manifest@.subrange(n as int, n as int) =~= Seq::<u8>::empty());
    }
    count
}

} // verus!
