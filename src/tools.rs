//! The command lines of the external tools, the names of the files that the
//! attempts create, and the rule that accepts a tool's output.
use vstd::prelude::*;
use crate::chain::{Attempt, Converter, PreviewTag, Profile};
use crate::format::last_index_of;
use crate::text::{chars_of, string_of};

verus! {

/// Output files at most this many bytes long are placeholders, not images.
pub const MIN_OUTPUT_BYTES: u64 = 10000;

/// Whether a tool that writes its output to a file succeeded: it exited with
/// success, and the file exists and is over the minimum size.
pub fn output_accepted(exit_ok: bool, exists: bool, size: u64) -> (r: bool)
    ensures
        r == (exit_ok && exists && size > MIN_OUTPUT_BYTES),
{
    exit_ok && exists && size > MIN_OUTPUT_BYTES
}

/// The image format of a captured pixel stream.
#[derive(Clone, Copy, Debug, PartialEq, Eq, Structural)]
pub enum StreamFormat {
    Ppm,
    Tiff,
}

/// The format that a full-decode profile writes on standard output.
pub open spec fn stream_format_of(p: Profile) -> StreamFormat {
    if p == Profile::GenericTiff {
        StreamFormat::Tiff
    } else {
        StreamFormat::Ppm
    }
}

/// The format that a full-decode profile writes on standard output.
pub fn stream_format(p: Profile) -> (r: StreamFormat)
    ensures
        r == stream_format_of(p),
{
    match p {
        Profile::GenericTiff => StreamFormat::Tiff,
        _ => StreamFormat::Ppm,
    }
}

/// An external program and its arguments.
#[derive(Clone, Debug)]
pub struct Command {
    pub program: String,
    pub args: Vec<String>,
}

/// The views of a sequence of strings.
pub open spec fn views(v: Seq<String>) -> Seq<Seq<char>> {
    v.map_values(|s: String| s@)
}

/// The views of a sequence of string slices.
pub open spec fn str_views(v: Seq<&str>) -> Seq<Seq<char>> {
    v.map_values(|s: &str| s@)
}

/// The program that an attempt runs.
pub open spec fn program_of(a: Attempt) -> Seq<char> {
    match a {
        Attempt::Preview(_) => "exiftool"@,
        Attempt::Thumbnail(Converter::Dcraw) => "dcraw"@,
        Attempt::Thumbnail(Converter::DcrawEmu) => "dcraw_emu"@,
        Attempt::Stream(p) => match p {
            Profile::FujiFast | Profile::FujiXtrans | Profile::GenericTiff => "dcraw_emu"@,
            _ => "dcraw"@,
        },
        Attempt::Sensor => Seq::empty(),
    }
}

/// The metadata tool's option that selects an embedded preview.
pub open spec fn tag_option(t: PreviewTag) -> Seq<char> {
    match t {
        PreviewTag::PreviewImage => "-PreviewImage"@,
        PreviewTag::JpgFromRaw => "-JpgFromRaw"@,
        PreviewTag::ThumbnailImage => "-ThumbnailImage"@,
        PreviewTag::OtherImage => "-OtherImage"@,
        PreviewTag::EmbeddedImage => "-EmbeddedImage"@,
    }
}

/// The options of a full-decode profile, before the source path.
pub open spec fn profile_options(p: Profile) -> Seq<Seq<char>> {
    match p {
        Profile::QuickHalf => seq!["-c"@, "-h"@, "-q"@, "0"@],
        Profile::FujiFast => seq![
            "-c"@, "-M"@, "-h"@, "-q"@, "0"@, "-fbdd"@, "1"@, "-o"@, "0"@,
        ],
        Profile::FujiXtrans => seq!["-M"@, "-q"@, "0"@, "-h"@, "-f"@, "-fbdd"@, "1"@],
        Profile::Sony => seq!["-c"@, "-w"@, "-h"@, "-q"@, "0"@, "-o"@, "0"@],
        Profile::Canon => seq!["-c"@, "-w"@, "-h"@, "-q"@, "0"@],
        Profile::Nikon => seq!["-c"@, "-w"@, "-h"@, "-q"@, "0"@, "-o"@, "1"@],
        Profile::Generic => seq!["-c"@, "-w"@, "-h"@, "-q"@, "0"@],
        Profile::GenericTiff => seq!["-T"@, "-h"@, "-q"@, "0"@],
    }
}

/// The arguments of an attempt on `source`, writing to `dest`.
pub open spec fn args_of(a: Attempt, source: Seq<char>, dest: Seq<char>) -> Seq<Seq<char>> {
    match a {
        Attempt::Preview(t) => seq!["-b"@, tag_option(t), "-w"@, dest, source],
        Attempt::Thumbnail(_) => seq!["-e"@, source],
        Attempt::Stream(p) => profile_options(p).push(source),
        Attempt::Sensor => Seq::empty(),
    }
}

fn owned_all(v: Vec<&str>) -> (r: Vec<String>)
    ensures
        views(r@) == str_views(v@),
{
    let mut r: Vec<String> = Vec::with_capacity(v.len());
    let mut i: usize = 0;
    while i < v.len()
        invariant
            i <= v.len(),
            views(r@) =~= str_views(v@).subrange(0, i as int),
        decreases v.len() - i,
    {
        let item: &str = v[i];
        let owned: String = item.to_owned();
        assert(owned@ == item@);
        let ghost before = r@;
        r.push(owned);
        proof {
            assert(r@ == before.push(owned));
            assert(views(r@) =~= views(before).push(owned@));
            assert(str_views(v@).subrange(0, i + 1) =~= str_views(v@).subrange(0, i as int).push(
                item@,
            ));
        }
        i = i + 1;
    }
    r
}

fn tag_option_exec(t: PreviewTag) -> (r: &'static str)
    ensures
        r@ == tag_option(t),
{
    match t {
        PreviewTag::PreviewImage => "-PreviewImage",
        PreviewTag::JpgFromRaw => "-JpgFromRaw",
        PreviewTag::ThumbnailImage => "-ThumbnailImage",
        PreviewTag::OtherImage => "-OtherImage",
        PreviewTag::EmbeddedImage => "-EmbeddedImage",
    }
}

fn profile_options_exec(p: Profile) -> (r: Vec<&'static str>)
    ensures
        str_views(r@) == profile_options(p),
{
    let r = match p {
        Profile::QuickHalf => vec!["-c", "-h", "-q", "0"],
        Profile::FujiFast => vec!["-c", "-M", "-h", "-q", "0", "-fbdd", "1", "-o", "0"],
        Profile::FujiXtrans => vec!["-M", "-q", "0", "-h", "-f", "-fbdd", "1"],
        Profile::Sony => vec!["-c", "-w", "-h", "-q", "0", "-o", "0"],
        Profile::Canon => vec!["-c", "-w", "-h", "-q", "0"],
        Profile::Nikon => vec!["-c", "-w", "-h", "-q", "0", "-o", "1"],
        Profile::Generic => vec!["-c", "-w", "-h", "-q", "0"],
        Profile::GenericTiff => vec!["-T", "-h", "-q", "0"],
    };
    assert(str_views(r@) =~= profile_options(p));
    r
}

/// The command line of an attempt on `source`, writing to `dest`; none for
/// the in-process sensor decode.
pub fn command_for(a: Attempt, source: &str, dest: &str) -> (r: Option<Command>)
    ensures
        match r {
            None => a == Attempt::Sensor,
            Some(c) => a != Attempt::Sensor && c.program@ == program_of(a) && views(c.args@)
                == args_of(a, source@, dest@),
        },
{
    match a {
        Attempt::Sensor => None,
        Attempt::Preview(t) => {
            let args = owned_all(vec!["-b", tag_option_exec(t), "-w", dest, source]);
            assert(views(args@) =~= args_of(a, source@, dest@));
            Some(Command { program: "exiftool".to_owned(), args })
        },
        Attempt::Thumbnail(c) => {
            let program = match c {
                Converter::Dcraw => "dcraw",
                Converter::DcrawEmu => "dcraw_emu",
            };
            let args = owned_all(vec!["-e", source]);
            assert(views(args@) =~= args_of(a, source@, dest@));
            Some(Command { program: program.to_owned(), args })
        },
        Attempt::Stream(p) => {
            let program = match p {
                Profile::FujiFast | Profile::FujiXtrans | Profile::GenericTiff => "dcraw_emu",
                _ => "dcraw",
            };
            let mut opts = profile_options_exec(p);
            opts.push(source);
            let args = owned_all(opts);
            assert(views(args@) =~= args_of(a, source@, dest@));
            Some(Command { program: program.to_owned(), args })
        },
    }
}

/// The characters of `s` with `suffix` appended.
fn with_suffix(s: &str, suffix: &str) -> (r: String)
    ensures
        r@ == s@ + suffix@,
{
    let mut v = chars_of(s);
    let w = chars_of(suffix);
    let ghost v0 = v@;
    let mut i: usize = 0;
    while i < w.len()
        invariant
            i <= w.len(),
            w@ == suffix@,
            v@ == v0 + w@.subrange(0, i as int),
        decreases w.len() - i,
    {
        v.push(w[i]);
        i = i + 1;
        assert(v@ =~= v0 + w@.subrange(0, i as int));
    }
    assert(w@.subrange(0, w.len() as int) =~= w@);
    string_of(&v)
}

/// The file name suffix of a captured stream of the given format.
pub open spec fn stream_suffix(f: StreamFormat) -> Seq<char> {
    match f {
        StreamFormat::Ppm => ".ppm"@,
        StreamFormat::Tiff => ".tiff"@,
    }
}

/// The temporary file that holds a captured stream on its way to `dest`:
/// the destination path with the format's suffix, so that calls with
/// different destinations never share one.
pub fn stream_temp_path(dest: &str, f: StreamFormat) -> (r: String)
    ensures
        r@ == dest@ + stream_suffix(f),
{
    match f {
        StreamFormat::Ppm => with_suffix(dest, ".ppm"),
        StreamFormat::Tiff => with_suffix(dest, ".tiff"),
    }
}

/// The intermediate image from which a grayscale thumbnail of `source` is
/// made: the source path with `.temp.jpg` appended.
pub fn thumbnail_temp_path(source: &str) -> (r: String)
    ensures
        r@ == source@ + ".temp.jpg"@,
{
    with_suffix(source, ".temp.jpg")
}

/// The file in which a converter leaves the thumbnail it extracts from
/// `source`: beside the source, named `thumb_` and the source's file name
/// without its extension, with the extension `jpg`.
pub open spec fn thumbnail_beside_of(source: Seq<char>) -> Seq<char> {
    let k = last_index_of(source, '/') + 1;
    let name = source.subrange(k, source.len() as int);
    let d = last_index_of(name, '.');
    let stem = if d < 0 {
        name
    } else {
        name.subrange(0, d)
    };
    source.subrange(0, k) + "thumb_"@ + stem + ".jpg"@
}

fn last_index_exec(v: &Vec<char>, lo: usize, c: char) -> (r: Option<usize>)
    requires
        lo <= v@.len(),
    ensures
        match r {
            None => last_index_of(v@.subrange(lo as int, v@.len() as int), c) == -1,
            Some(k) => lo <= k < v@.len() && last_index_of(
                v@.subrange(lo as int, v@.len() as int),
                c,
            ) == k - lo,
        },
{
    let mut j: usize = v.len();
    while j > lo
        invariant
            lo <= j <= v@.len(),
            last_index_of(v@.subrange(lo as int, v@.len() as int), c) == last_index_of(
                v@.subrange(lo as int, j as int),
                c,
            ),
        decreases j,
    {
        if v[j - 1] == c {
            return Some(j - 1);
        }
        assert(v@.subrange(lo as int, j as int).drop_last() =~= v@.subrange(lo as int, j - 1));
        j = j - 1;
    }
    None
}

fn push_all(out: &mut Vec<char>, v: &Vec<char>, lo: usize, hi: usize)
    requires
        lo <= hi <= v@.len(),
    ensures
        final(out)@ == old(out)@ + v@.subrange(lo as int, hi as int),
{
    let ghost start = out@;
    let mut i: usize = lo;
    while i < hi
        invariant
            lo <= i <= hi <= v@.len(),
            out@ == start + v@.subrange(lo as int, i as int),
        decreases hi - i,
    {
        out.push(v[i]);
        i = i + 1;
        assert(out@ =~= start + v@.subrange(lo as int, i as int));
    }
}

/// The file in which a converter leaves the thumbnail it extracts from
/// `source`.
pub fn thumbnail_beside(source: &str) -> (r: String)
    ensures
        r@ == thumbnail_beside_of(source@),
{
    let p = chars_of(source);
    let n = p.len();
    let k: usize = match last_index_exec(&p, 0, '/') {
        None => 0,
        Some(i) => i + 1,
    };
    assert(p@.subrange(0, p@.len() as int) =~= p@);
    let ghost name = p@.subrange(k as int, p@.len() as int);
    let stem_end: usize = match last_index_exec(&p, k, '.') {
        None => p.len(),
        Some(d) => d,
    };
    let mut out: Vec<char> = Vec::new();
    push_all(&mut out, &p, 0, k);
    let prefix = chars_of("thumb_");
    push_all(&mut out, &prefix, 0, prefix.len());
    push_all(&mut out, &p, k, stem_end);
    let ext = chars_of(".jpg");
    push_all(&mut out, &ext, 0, ext.len());
    proof {
        assert(prefix@.subrange(0, prefix@.len() as int) =~= prefix@);
        assert(ext@.subrange(0, ext@.len() as int) =~= ext@);
        let d = last_index_of(name, '.');
        let stem = if d < 0 {
            name
        } else {
            name.subrange(0, d)
        };
        assert(p@.subrange(k as int, stem_end as int) =~= stem);
        assert(out@ =~= thumbnail_beside_of(source@));
    }
    string_of(&out)
}

} // verus!
