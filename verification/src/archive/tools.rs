//! Which installed program unpacks an archive, and the arguments it is given.
//!
//! Where the programs are is found on disk, so it is found in two steps: [`probes`] says which
//! files would be the tools, in the order they are wanted, and [`plan`] takes the answer of which
//! of them may be run and says how to unpack with the first.

use vstd::prelude::*;
use vstd::string::StringSliceAdditionalSpecFns;

use super::{Compressor, Format};
use crate::path::{is_absolute, join, join_path};
use crate::text::{bytes_of, push_range, split, split_bytes, views};

verus! {

/// Handed to every tool that would otherwise stop to ask for a password. The tools read a password
/// from the terminal itself, not from their input, so closing their input is not enough: without
/// one they would draw a prompt over the explorer and wait for keys that never come. Given this
/// one they fail on an encrypted archive at once, and say why.
pub const NO_PASSWORD: &'static str = "qexp-no-password";

/// A program that can unpack an archive.
#[derive(Debug, Clone, Copy, PartialEq, Eq, Structural)]
pub enum Tool {
    /// `bsdtar`, from libarchive, which reads nearly every format alone.
    Bsdtar,
    /// GNU `tar`.
    Tar,
    /// `unzip`.
    Unzip,
    /// 7-Zip as `7z`.
    SevenZ,
    /// 7-Zip as `7zz`.
    SevenZz,
    /// 7-Zip as `7za`.
    SevenZa,
    /// `unrar`.
    Unrar,
    /// `gzip`.
    Gzip,
    /// `bzip2`.
    Bzip2,
    /// `xz`, which reads lzma too.
    Xz,
    /// `zstd`.
    Zstd,
    /// `lz4`.
    Lz4,
    /// `lzip`.
    Lzip,
}

/// Where a tool puts what it unpacks.
#[derive(Debug, Clone, Copy, PartialEq, Eq, Structural)]
pub enum Output {
    /// Into the folder it was given, as the archive's files.
    Folder,
    /// To its standard output, as the one file a lone compressed file holds.
    Stdout,
}

/// How to unpack one archive: the program, its arguments and where the result appears. Never run
/// through a shell, so no file name can change what is run.
#[derive(Debug, Clone, PartialEq, Eq)]
pub struct Plan {
    /// The program, with the folder it was found in.
    pub program: Vec<u8>,
    /// Its arguments, each one whole.
    pub args: Vec<Vec<u8>>,
    /// Where it puts what it unpacks.
    pub output: Output,
}

/// No installed tool can unpack an archive: what to install to have one.
#[derive(Debug, Clone, PartialEq, Eq)]
pub struct Missing {
    /// The first tool that would do, such as `bsdtar`.
    pub wanted: &'static str,
    /// The Arch package it comes in, such as `libarchive` for `bsdtar`.
    pub package: &'static str,
}

/// A file that would be a tool if it is there and may be run.
#[derive(Debug, Clone, PartialEq, Eq)]
pub struct Probe {
    /// The tool it would be.
    pub tool: Tool,
    /// The file: a folder of the search path with the tool's name.
    pub program: Vec<u8>,
}

/// The name of a tool's program.
pub open spec fn program_name(t: Tool) -> Seq<u8> {
    match t {
        Tool::Bsdtar => "bsdtar".spec_bytes(),
        Tool::Tar => "tar".spec_bytes(),
        Tool::Unzip => "unzip".spec_bytes(),
        Tool::SevenZ => "7z".spec_bytes(),
        Tool::SevenZz => "7zz".spec_bytes(),
        Tool::SevenZa => "7za".spec_bytes(),
        Tool::Unrar => "unrar".spec_bytes(),
        Tool::Gzip => "gzip".spec_bytes(),
        Tool::Bzip2 => "bzip2".spec_bytes(),
        Tool::Xz => "xz".spec_bytes(),
        Tool::Zstd => "zstd".spec_bytes(),
        Tool::Lz4 => "lz4".spec_bytes(),
        Tool::Lzip => "lzip".spec_bytes(),
    }
}

/// The Arch package a tool comes in.
pub open spec fn package_name(t: Tool) -> Seq<u8> {
    match t {
        Tool::Bsdtar => "libarchive".spec_bytes(),
        Tool::Tar => "tar".spec_bytes(),
        Tool::Unzip => "unzip".spec_bytes(),
        Tool::SevenZ => "7zip".spec_bytes(),
        Tool::SevenZz => "7zip".spec_bytes(),
        Tool::SevenZa => "7zip".spec_bytes(),
        Tool::Unrar => "unrar".spec_bytes(),
        Tool::Gzip => "gzip".spec_bytes(),
        Tool::Bzip2 => "bzip2".spec_bytes(),
        Tool::Xz => "xz".spec_bytes(),
        Tool::Zstd => "zstd".spec_bytes(),
        Tool::Lz4 => "lz4".spec_bytes(),
        Tool::Lzip => "lzip".spec_bytes(),
    }
}

/// The tools for a format, the most capable first. `bsdtar` leads wherever it can, since it reads
/// nearly every format alone and comes with the system's own package manager on Arch.
pub open spec fn tools_for(format: Format) -> Seq<Tool> {
    match format {
        Format::Zip => seq![Tool::Bsdtar, Tool::Unzip],
        Format::Tar => seq![Tool::Bsdtar, Tool::Tar],
        Format::SevenZip => seq![Tool::Bsdtar, Tool::SevenZ, Tool::SevenZz, Tool::SevenZa],
        Format::Rar => seq![Tool::Bsdtar, Tool::Unrar, Tool::SevenZ],
        Format::Disk => seq![Tool::Bsdtar],
        Format::Single(Compressor::Gzip) => seq![Tool::Gzip],
        Format::Single(Compressor::Bzip2) => seq![Tool::Bzip2],
        Format::Single(Compressor::Xz) => seq![Tool::Xz],
        Format::Single(Compressor::Lzma) => seq![Tool::Xz],
        Format::Single(Compressor::Zstd) => seq![Tool::Zstd],
        Format::Single(Compressor::Lz4) => seq![Tool::Lz4],
        Format::Single(Compressor::Lzip) => seq![Tool::Lzip],
    }
}

/// The folders of a search path (folders between colons, like `PATH`) that are searched: the
/// absolute ones, in order. A relative folder would mean whatever folder the explorer happens to
/// be in, and an archive's own folder could then supply a program named `tar`.
pub open spec fn search_folders(path_var: Seq<u8>) -> Seq<Seq<u8>> {
    split(path_var, 58u8).filter(|folder: Seq<u8>| is_absolute(folder))
}

/// The files to look at for `tools` in `folders`, the first tool in every folder first.
pub open spec fn probe_files(tools: Seq<Tool>, folders: Seq<Seq<u8>>) -> Seq<(Tool, Seq<u8>)>
    decreases tools.len(),
{
    if tools.len() == 0 {
        Seq::empty()
    } else {
        let t = tools.last();
        probe_files(tools.drop_last(), folders) + folders.map_values(
            |folder: Seq<u8>| (t, join(folder, program_name(t))),
        )
    }
}

/// A path as an argument no tool can take for an option: a relative one starts with `./`.
pub open spec fn as_arg(path: Seq<u8>) -> Seq<u8> {
    if is_absolute(path) {
        path
    } else {
        seq![46u8, 47u8] + path
    }
}

/// Where a tool puts what it unpacks from an archive of `format`.
pub open spec fn output_of(format: Format) -> Output {
    match format {
        Format::Single(_) => Output::Stdout,
        _ => Output::Folder,
    }
}

/// The arguments `tool` is given to unpack the archive `archive` (as an argument) into `into`.
pub open spec fn tool_args(format: Format, tool: Tool, archive: Seq<u8>, into: Seq<u8>) -> Seq<Seq<u8>> {
    let no_password = NO_PASSWORD.spec_bytes();
    match format {
        Format::Single(_) => seq!["-dc".spec_bytes(), archive],
        _ => match tool {
            Tool::Bsdtar => seq![
                "--passphrase".spec_bytes(),
                no_password,
                "-x".spec_bytes(),
                "-f".spec_bytes(),
                archive,
                "-C".spec_bytes(),
                into,
            ],
            Tool::Tar => seq!["-x".spec_bytes(), "-f".spec_bytes(), archive, "-C".spec_bytes(), into],
            Tool::Unzip => seq!["-P".spec_bytes(), no_password, archive, "-d".spec_bytes(), into],
            Tool::Unrar => seq!["x".spec_bytes(), "-idq".spec_bytes(), "-p-".spec_bytes(), archive, into.push(47u8)],
            _ => seq![
                "x".spec_bytes(),
                "-y".spec_bytes(),
                "-p".spec_bytes() + no_password,
                "-o".spec_bytes() + into,
                archive,
            ],
        },
    }
}

/// Whether `i` is the first place in `s` that holds `true`.
pub open spec fn is_first_true(s: Seq<bool>, i: int) -> bool {
    0 <= i < s.len() && s[i] && forall|j: int| 0 <= j < i ==> !s[j]
}

/// The first place in `s` that holds `true`.
pub open spec fn first_true(s: Seq<bool>) -> Option<int> {
    if exists|i: int| is_first_true(s, i) {
        Some(choose|i: int| is_first_true(s, i))
    } else {
        None
    }
}

/// The name of a tool's program.
pub fn program(t: Tool) -> (r: &'static str)
    ensures
        r.spec_bytes() == program_name(t),
{
    match t {
        Tool::Bsdtar => "bsdtar",
        Tool::Tar => "tar",
        Tool::Unzip => "unzip",
        Tool::SevenZ => "7z",
        Tool::SevenZz => "7zz",
        Tool::SevenZa => "7za",
        Tool::Unrar => "unrar",
        Tool::Gzip => "gzip",
        Tool::Bzip2 => "bzip2",
        Tool::Xz => "xz",
        Tool::Zstd => "zstd",
        Tool::Lz4 => "lz4",
        Tool::Lzip => "lzip",
    }
}

/// The Arch package a tool comes in.
pub fn package(t: Tool) -> (r: &'static str)
    ensures
        r.spec_bytes() == package_name(t),
{
    match t {
        Tool::Bsdtar => "libarchive",
        Tool::Tar => "tar",
        Tool::Unzip => "unzip",
        Tool::SevenZ => "7zip",
        Tool::SevenZz => "7zip",
        Tool::SevenZa => "7zip",
        Tool::Unrar => "unrar",
        Tool::Gzip => "gzip",
        Tool::Bzip2 => "bzip2",
        Tool::Xz => "xz",
        Tool::Zstd => "zstd",
        Tool::Lz4 => "lz4",
        Tool::Lzip => "lzip",
    }
}

/// The tools for a format, the most capable first.
pub fn tools(format: Format) -> (r: Vec<Tool>)
    ensures
        r@ == tools_for(format),
{
    let r = match format {
        Format::Zip => vec![Tool::Bsdtar, Tool::Unzip],
        Format::Tar => vec![Tool::Bsdtar, Tool::Tar],
        Format::SevenZip => vec![Tool::Bsdtar, Tool::SevenZ, Tool::SevenZz, Tool::SevenZa],
        Format::Rar => vec![Tool::Bsdtar, Tool::Unrar, Tool::SevenZ],
        Format::Disk => vec![Tool::Bsdtar],
        Format::Single(Compressor::Gzip) => vec![Tool::Gzip],
        Format::Single(Compressor::Bzip2) => vec![Tool::Bzip2],
        Format::Single(Compressor::Xz) => vec![Tool::Xz],
        Format::Single(Compressor::Lzma) => vec![Tool::Xz],
        Format::Single(Compressor::Zstd) => vec![Tool::Zstd],
        Format::Single(Compressor::Lz4) => vec![Tool::Lz4],
        Format::Single(Compressor::Lzip) => vec![Tool::Lzip],
    };
    assert(r@ =~= tools_for(format));
    r
}

/// What each probe stands for.
pub open spec fn probe_view(p: Seq<Probe>) -> Seq<(Tool, Seq<u8>)> {
    Seq::new(p.len(), |i: int| (p[i].tool, p[i].program@))
}

/// The folders of the search path `path_var` that are searched, in order.
pub fn folders(path_var: &[u8]) -> (r: Vec<Vec<u8>>)
    ensures
        views(r@) == search_folders(path_var@),
{
    let pieces = split_bytes(path_var, 58u8);
    let ghost all = split(path_var@, 58u8);
    let mut out: Vec<Vec<u8>> = Vec::new();
    let mut k: usize = 0;
    assert(all.take(0).filter(|folder: Seq<u8>| is_absolute(folder)) =~= Seq::<Seq<u8>>::empty()) by {
        reveal_with_fuel(Seq::<_>::filter, 1);
    }
    while k < pieces.len()
        invariant
            views(pieces@) == all,
            k <= pieces@.len(),
            views(out@) == all.take(k as int).filter(|folder: Seq<u8>| is_absolute(folder)),
        decreases pieces@.len() - k,
    {
        let piece = &pieces[k];
        assert(piece@ == all[k as int]);
        proof {
            assert(all.take(k + 1).drop_last() =~= all.take(k as int));
            reveal_with_fuel(Seq::<_>::filter, 1);
        }
        if piece.len() > 0 && piece[0] == 47u8 {
            let ghost before = views(out@);
            let mut copy: Vec<u8> = Vec::new();
            push_range(&mut copy, piece, 0, piece.len());
            assert(piece@.subrange(0, piece@.len() as int) =~= piece@);
            out.push(copy);
            assert(views(out@) =~= before.push(all[k as int]));
        }
        k += 1;
    }
    assert(all.take(k as int) =~= all);
    out
}

/// The files that would be the tools for an archive of `format`, in the order they are wanted:
/// every folder of the search path `path_var` for the first tool, then every folder for the
/// next. Without a search path there is nothing to look at.
pub fn probes(format: Format, path_var: Option<&[u8]>) -> (r: Vec<Probe>)
    ensures
        path_var is None ==> r@.len() == 0,
        path_var matches Some(p) ==> probe_view(r@) == probe_files(tools_for(format), search_folders(p@)),
{
    let mut out: Vec<Probe> = Vec::new();
    let path_var = match path_var {
        Some(p) => p,
        None => return out,
    };
    let folders = folders(path_var);
    let ghost fs = search_folders(path_var@);
    let candidates = tools(format);
    let ghost ts = tools_for(format);
    let mut t: usize = 0;
    assert(ts.take(0) =~= Seq::<Tool>::empty());
    assert(probe_view(out@) =~= probe_files(ts.take(0), fs));
    while t < candidates.len()
        invariant
            candidates@ == ts,
            views(folders@) == fs,
            t <= ts.len(),
            probe_view(out@) == probe_files(ts.take(t as int), fs),
        decreases ts.len() - t,
    {
        let tool = candidates[t];
        let name = program(tool).as_bytes();
        let ghost start = probe_view(out@);
        let mut f: usize = 0;
        while f < folders.len()
            invariant
                candidates@ == ts,
                views(folders@) == fs,
                t < ts.len(),
                tool == ts[t as int],
                name@ == program_name(tool),
                f <= fs.len(),
                probe_view(out@) == start + fs.take(f as int).map_values(
                    |folder: Seq<u8>| (tool, join(folder, program_name(tool))),
                ),
            decreases fs.len() - f,
        {
            let file = join_path(&folders[f], name);
            let ghost before = probe_view(out@);
            out.push(Probe { tool, program: file });
            assert(probe_view(out@) =~= before.push((tool, join(fs[f as int], program_name(tool)))));
            assert(fs.take(f + 1).map_values(|folder: Seq<u8>| (tool, join(folder, program_name(tool))))
                =~= fs.take(f as int).map_values(|folder: Seq<u8>| (tool, join(folder, program_name(tool)))).push(
                (tool, join(fs[f as int], program_name(tool))),
            ));
            f += 1;
        }
        assert(fs.take(f as int) =~= fs);
        assert(ts.take(t + 1).drop_last() =~= ts.take(t as int));
        assert(ts.take(t + 1).last() == tool);
        t += 1;
    }
    assert(ts.take(t as int) =~= ts);
    out
}

/// `path` as an argument.
fn arg(path: &[u8]) -> (r: Vec<u8>)
    ensures
        r@ == as_arg(path@),
{
    let mut out: Vec<u8> = Vec::new();
    if !(path.len() > 0 && path[0] == 47u8) {
        out.push(46u8);
        out.push(47u8);
    }
    push_range(&mut out, path, 0, path.len());
    assert(path@.subrange(0, path@.len() as int) =~= path@);
    assert(out@ =~= as_arg(path@));
    out
}

/// `a` followed by `b`.
fn concat(a: &str, b: &[u8]) -> (r: Vec<u8>)
    ensures
        r@ == a.spec_bytes() + b@,
{
    let mut out = bytes_of(a);
    push_range(&mut out, b, 0, b.len());
    assert(b@.subrange(0, b@.len() as int) =~= b@);
    out
}

/// How to unpack the archive at `archive` into the folder `into`, with the first of `probes` that
/// `runnable` says may be run: a regular file with a mode that lets it run.
///
/// Nothing is ever given that would let a tool write outside `into`: `bsdtar` refuses `..` and
/// absolute names unless told otherwise with `-P`, and it never is. A path that is not absolute
/// is given as `./path`, so a name beginning with `-` is never read as an option.
///
/// # Errors
///
/// [`Missing`] names the first tool that would do and its package when none of the probes may be
/// run.
pub fn plan(format: Format, archive: &[u8], into: &[u8], probes: &[Probe], runnable: &[bool]) -> (r: Result<Plan, Missing>)
    requires
        probes@.len() == runnable@.len(),
    ensures
        first_true(runnable@) matches Some(i) ==> (r matches Ok(p) && {
            &&& p.program@ == probes@[i].program@
            &&& views(p.args@) == tool_args(format, probes@[i].tool, as_arg(archive@), as_arg(into@))
            &&& p.output == output_of(format)
        }),
        first_true(runnable@) is None ==> (r matches Err(m) && m.wanted.spec_bytes() == program_name(
            tools_for(format)[0],
        ) && m.package.spec_bytes() == package_name(tools_for(format)[0])),
{
    let mut k: usize = 0;
    while k < probes.len() && !runnable[k]
        invariant
            probes@.len() == runnable@.len(),
            k <= probes@.len(),
            forall|j: int| 0 <= j < k ==> !runnable@[j],
        decreases probes@.len() - k,
    {
        k += 1;
    }
    if k == probes.len() {
        assert(!exists|i: int| is_first_true(runnable@, i));
        let first = tools(format)[0];
        return Err(Missing { wanted: program(first), package: package(first) });
    }
    assert(is_first_true(runnable@, k as int));
    assert(first_true(runnable@) == Some(k as int)) by {
        let c = choose|c: int| is_first_true(runnable@, c);
        assert(c == k as int);
    }
    let found = &probes[k];
    let a = arg(archive);
    let i = arg(into);
    let mut program_file: Vec<u8> = Vec::new();
    push_range(&mut program_file, &found.program, 0, found.program.len());
    assert(found.program@.subrange(0, found.program@.len() as int) =~= found.program@);
    let (args, output) = match format {
        Format::Single(_) => (vec![bytes_of("-dc"), a], Output::Stdout),
        _ => match found.tool {
            Tool::Bsdtar => (
                vec![
                    bytes_of("--passphrase"),
                    bytes_of(NO_PASSWORD),
                    bytes_of("-x"),
                    bytes_of("-f"),
                    a,
                    bytes_of("-C"),
                    i,
                ],
                Output::Folder,
            ),
            Tool::Tar => (vec![bytes_of("-x"), bytes_of("-f"), a, bytes_of("-C"), i], Output::Folder),
            // The target folder is new and empty, so unzip is never told to overwrite; `-q` is
            // left off because it also hides the line saying a password was wrong.
            Tool::Unzip => (vec![bytes_of("-P"), bytes_of(NO_PASSWORD), a, bytes_of("-d"), i], Output::Folder),
            Tool::Unrar => {
                // unrar reads a destination without a trailing slash as a name inside the archive.
                let mut to = i;
                to.push(47u8);
                (vec![bytes_of("x"), bytes_of("-idq"), bytes_of("-p-"), a, to], Output::Folder)
            },
            _ => (
                vec![bytes_of("x"), bytes_of("-y"), concat("-p", NO_PASSWORD.as_bytes()), concat("-o", &i), a],
                Output::Folder,
            ),
        },
    };
    let ghost expected = tool_args(format, found.tool, as_arg(archive@), as_arg(into@));
    assert(views(args@) =~= expected);
    Ok(Plan { program: program_file, args, output })
}

/// A path handed to a tool never reads as an option: it starts with `/` or with `./`.
pub proof fn an_argument_never_reads_as_an_option(path: Seq<u8>)
    ensures
        as_arg(path).len() > 0,
        as_arg(path)[0] != 45u8,
{
}

} // verus!
