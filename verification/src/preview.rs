use crate::fuzzy::lower_of;
use crate::fuzzy::lowercase;
use crate::strutil::chars_to_string;
use crate::strutil::eq_str;
use crate::fuzzy::str_chars;
use vstd::prelude::*;
use vstd::string::StrSliceExecFns;
use vstd::string::StringSliceAdditionalSpecFns;
use vstd::utf8::encode_utf8;

verus! {

/// Largest preview kept in full; longer contents are cut here and a
/// truncation marker is appended.
pub const PREVIEW_LIMIT: usize = 50000;

/// Index of the last `.` in a name, if any.
pub open spec fn last_dot(s: Seq<char>) -> Option<int>
    decreases s.len(),
{
    if s.len() == 0 {
        None
    } else if s.last() == '.' {
        Some(s.len() - 1)
    } else {
        last_dot(s.drop_last())
    }
}

/// The extension of a file name: what follows the last `.`, provided that
/// dot is not the leading character.
pub open spec fn ext_of(name: Seq<char>) -> Option<Seq<char>> {
    match last_dot(name) {
        Some(i) => if i > 0 {
            Some(name.subrange(i + 1, name.len() as int))
        } else {
            None
        },
        None => None,
    }
}

/// Extensions (already folded to lowercase) that mark a file as binary:
/// executables and objects, images, audio and video, documents, archives.
pub open spec fn is_binary_ext(x: Seq<char>) -> bool {
    ||| x == "exe"@
    ||| x == "bin"@
    ||| x == "dll"@
    ||| x == "so"@
    ||| x == "dylib"@
    ||| x == "a"@
    ||| x == "o"@
    ||| x == "obj"@
    ||| x == "jpg"@
    ||| x == "jpeg"@
    ||| x == "png"@
    ||| x == "gif"@
    ||| x == "bmp"@
    ||| x == "ico"@
    ||| x == "tiff"@
    ||| x == "webp"@
    ||| x == "mp3"@
    ||| x == "mp4"@
    ||| x == "wav"@
    ||| x == "flac"@
    ||| x == "ogg"@
    ||| x == "avi"@
    ||| x == "mkv"@
    ||| x == "mov"@
    ||| x == "pdf"@
    ||| x == "doc"@
    ||| x == "docx"@
    ||| x == "xls"@
    ||| x == "xlsx"@
    ||| x == "ppt"@
    ||| x == "pptx"@
    ||| x == "zip"@
    ||| x == "tar"@
    ||| x == "gz"@
    ||| x == "bz2"@
    ||| x == "7z"@
    ||| x == "rar"@
}

/// A name is treated as binary when its folded extension is on the list.
pub open spec fn is_binary_name(name: Seq<char>) -> bool {
    match ext_of(name) {
        Some(e) => is_binary_ext(lower_of(e)),
        None => false,
    }
}

/// The placeholder shown instead of binary content.
pub open spec fn binary_placeholder(name: Seq<char>) -> Seq<u8> {
    encode_utf8("Binary file: "@) + encode_utf8(name)
}

/// The digits of `n` in decimal.
pub open spec fn dec_digits(n: nat) -> Seq<u8>
    decreases n,
{
    if n < 10 {
        seq![(48 + n) as u8]
    } else {
        dec_digits(n / 10).push((48 + n % 10) as u8)
    }
}

/// The marker appended to a cut preview, naming the original byte count.
pub open spec fn trunc_marker(total: nat) -> Seq<u8> {
    encode_utf8("...\n\n[File truncated - "@) + dec_digits(total) + encode_utf8(" bytes total]"@)
}

/// What the preview pane shows for a file named `name` whose read returned
/// `read` (`None`: the read failed). Binary names and contents holding a
/// zero byte get the placeholder; long contents are cut at
/// [`PREVIEW_LIMIT`] bytes and marked.
pub open spec fn preview_of(name: Seq<char>, read: Option<Seq<u8>>) -> Seq<u8> {
    if is_binary_name(name) {
        binary_placeholder(name)
    } else {
        match read {
            None => encode_utf8("Could not read file"@),
            Some(content) => if content.contains(0u8) {
                binary_placeholder(name)
            } else if content.len() > PREVIEW_LIMIT {
                content.subrange(0, PREVIEW_LIMIT as int) + trunc_marker(content.len())
            } else {
                content
            },
        }
    }
}

/// Decides whether a file name's extension marks it as binary.
pub fn has_binary_extension(name: &str) -> (r: bool)
    ensures
        r == is_binary_name(name@),
{
    let cs = str_chars(name);
    let n = cs.len();
    let mut j: usize = n;
    proof {
        assert(cs@.subrange(0, n as int) =~= cs@);
    }
    while j > 0
        invariant
            j <= n,
            n == cs@.len(),
            cs@ == name@,
            last_dot(name@) == last_dot(cs@.subrange(0, j as int)),
            forall|k: int| j <= k < n ==> cs@[k] != '.',
        decreases j,
    {
        proof {
            assert(cs@.subrange(0, j as int).last() == cs@[j - 1]);
            assert(cs@.subrange(0, j as int).drop_last() =~= cs@.subrange(0, j - 1));
        }
        if cs[j - 1] == '.' {
            if j - 1 == 0 {
                return false;
            }
            let ext = chars_to_string(&cs, j, n);
            let lowered = lowercase(ext.as_str());
            proof {
                assert(ext_of(name@) == Some(name@.subrange(j as int, n as int)));
            }
            let r = eq_str(lowered.as_str(), "exe") || eq_str(lowered.as_str(), "bin") || eq_str(
                lowered.as_str(),
                "dll",
            ) || eq_str(lowered.as_str(), "so") || eq_str(lowered.as_str(), "dylib") || eq_str(
                lowered.as_str(),
                "a",
            ) || eq_str(lowered.as_str(), "o") || eq_str(lowered.as_str(), "obj") || eq_str(
                lowered.as_str(),
                "jpg",
            ) || eq_str(lowered.as_str(), "jpeg") || eq_str(lowered.as_str(), "png") || eq_str(
                lowered.as_str(),
                "gif",
            ) || eq_str(lowered.as_str(), "bmp") || eq_str(lowered.as_str(), "ico") || eq_str(
                lowered.as_str(),
                "tiff",
            ) || eq_str(lowered.as_str(), "webp") || eq_str(lowered.as_str(), "mp3") || eq_str(
                lowered.as_str(),
                "mp4",
            ) || eq_str(lowered.as_str(), "wav") || eq_str(lowered.as_str(), "flac") || eq_str(
                lowered.as_str(),
                "ogg",
            ) || eq_str(lowered.as_str(), "avi") || eq_str(lowered.as_str(), "mkv") || eq_str(
                lowered.as_str(),
                "mov",
            ) || eq_str(lowered.as_str(), "pdf") || eq_str(lowered.as_str(), "doc") || eq_str(
                lowered.as_str(),
                "docx",
            ) || eq_str(lowered.as_str(), "xls") || eq_str(lowered.as_str(), "xlsx") || eq_str(
                lowered.as_str(),
                "ppt",
            ) || eq_str(lowered.as_str(), "pptx") || eq_str(lowered.as_str(), "zip") || eq_str(
                lowered.as_str(),
                "tar",
            ) || eq_str(lowered.as_str(), "gz") || eq_str(lowered.as_str(), "bz2") || eq_str(
                lowered.as_str(),
                "7z",
            ) || eq_str(lowered.as_str(), "rar");
            return r;
        }
        j = j - 1;
    }
    proof {
        assert(cs@.subrange(0, 0) =~= Seq::<char>::empty());
        assert(last_dot(name@) is None);
    }
    false
}

fn contains_zero(b: &Vec<u8>) -> (r: bool)
    ensures
        r == b@.contains(0u8),
{
    let mut i: usize = 0;
    while i < b.len()
        invariant
            i <= b@.len(),
            forall|k: int| 0 <= k < i ==> b@[k] != 0u8,
        decreases b@.len() - i,
    {
        if b[i] == 0u8 {
            return true;
        }
        i = i + 1;
    }
    false
}

/// Writes `n` in decimal.
fn format_count(n: usize) -> (v: Vec<u8>)
    ensures
        v@ == dec_digits(n as nat),
    decreases n,
{
    if n < 10 {
        let mut v: Vec<u8> = Vec::new();
        v.push((48 + n) as u8);
        proof {
            assert(v@ =~= dec_digits(n as nat));
        }
        v
    } else {
        let mut v = format_count(n / 10);
        v.push((48 + (n % 10)) as u8);
        proof {
            assert(v@ =~= dec_digits(n as nat));
        }
        v
    }
}

/// Builds the binary placeholder for a name.
fn build_placeholder(name: &str) -> (out: Vec<u8>)
    ensures
        out@ == binary_placeholder(name@),
{
    let mut out = "Binary file: ".as_bytes_vec();
    let mut tail = name.as_bytes_vec();
    out.append(&mut tail);
    out
}

/// Renders the preview for a file named `name` from its read result
/// (`None`: the read failed), per [`preview_of`].
pub fn render_preview(name: &str, read: Option<Vec<u8>>) -> (out: Vec<u8>)
    ensures
        out@ == preview_of(
            name@,
            match read {
                Some(b) => Some(b@),
                None => None,
            },
        ),
{
    if has_binary_extension(name) {
        return build_placeholder(name);
    }
    match read {
        None => "Could not read file".as_bytes_vec(),
        Some(content) => {
            if contains_zero(&content) {
                build_placeholder(name)
            } else if content.len() > PREVIEW_LIMIT {
                let mut out: Vec<u8> = Vec::new();
                let mut i: usize = 0;
                while i < PREVIEW_LIMIT
                    invariant
                        i <= PREVIEW_LIMIT,
                        PREVIEW_LIMIT <= content@.len(),
                        out@ == content@.subrange(0, i as int),
                    decreases PREVIEW_LIMIT - i,
                {
                    out.push(content[i]);
                    i = i + 1;
                    proof {
                        assert(content@.subrange(0, i - 1).push(content@[i - 1]) =~= content@
                            .subrange(0, i as int));
                    }
                }
                let mut marker = "...\n\n[File truncated - ".as_bytes_vec();
                out.append(&mut marker);
                let mut digits = format_count(content.len());
                out.append(&mut digits);
                let mut tail = " bytes total]".as_bytes_vec();
                out.append(&mut tail);
                proof {
                    assert(out@ =~= content@.subrange(0, PREVIEW_LIMIT as int) + trunc_marker(
                        content@.len(),
                    ));
                }
                out
            } else {
                content
            }
        },
    }
}

} // verus!
