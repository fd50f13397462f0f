use qexp::archive::tools::{folders, package, program, tools, Tool, NO_PASSWORD};
use qexp::archive::zip::{directory_encrypted, directory_span, tail_len, TAIL};
use qexp::archive::{
    after_claim, failure, format_of, judged, last_line, numbered, plan, probes, stem, temp_name, Compressor, ExtractError, Format,
    Claim, Missing, Next, Output, Plan,
};
use qexp::path::file_name;

fn os(args: &[&str]) -> Vec<Vec<u8>> {
    args.iter().map(|a| a.as_bytes().to_vec()).collect()
}

/// The plan for `format` with a search path of one folder, `/t/bin`, holding the programs `names`.
fn plan_with(format: Format, archive: &[u8], into: &[u8], names: &[&str]) -> Result<Plan, Missing> {
    let found = probes(format, Some(b"/t/bin"));
    let runnable: Vec<bool> = found
        .iter()
        .map(|probe| names.iter().any(|name| probe.program == format!("/t/bin/{name}").into_bytes()))
        .collect();
    plan(format, archive, into, &found, &runnable)
}

fn program_for(format: Format, names: &[&str]) -> Result<String, Missing> {
    plan_with(format, b"/a/b.x", b"/a/.t", names)
        .map(|plan| String::from_utf8(file_name(&plan.program).unwrap()).unwrap())
}

// --- Names ---

#[test]
fn every_archive_ending_is_known_whatever_its_case() {
    let cases: &[(&str, Format)] = &[
        ("a.zip", Format::Zip),
        ("a.jar", Format::Zip),
        ("a.apk", Format::Zip),
        ("a.cbz", Format::Zip),
        ("a.war", Format::Zip),
        ("a.ear", Format::Zip),
        ("a.xpi", Format::Zip),
        ("a.tar", Format::Tar),
        ("a.tar.gz", Format::Tar),
        ("a.tgz", Format::Tar),
        ("a.tar.bz2", Format::Tar),
        ("a.tbz", Format::Tar),
        ("a.tbz2", Format::Tar),
        ("a.tar.xz", Format::Tar),
        ("a.txz", Format::Tar),
        ("a.tar.zst", Format::Tar),
        ("a.tzst", Format::Tar),
        ("a.tar.lz", Format::Tar),
        ("a.tar.lzma", Format::Tar),
        ("a.tar.lz4", Format::Tar),
        ("a.tar.z", Format::Tar),
        ("a.tar.Z", Format::Tar),
        ("yay-12.0-1-x86_64.pkg.tar.zst", Format::Tar),
        ("a.7z", Format::SevenZip),
        ("a.rar", Format::Rar),
        ("a.cbr", Format::Rar),
        ("a.iso", Format::Disk),
        ("a.cpio", Format::Disk),
        ("a.deb", Format::Disk),
        ("a.rpm", Format::Disk),
        ("a.gz", Format::Single(Compressor::Gzip)),
        ("a.bz2", Format::Single(Compressor::Bzip2)),
        ("a.xz", Format::Single(Compressor::Xz)),
        ("a.zst", Format::Single(Compressor::Zstd)),
        ("a.lz4", Format::Single(Compressor::Lz4)),
        ("a.lzma", Format::Single(Compressor::Lzma)),
        ("a.lz", Format::Single(Compressor::Lzip)),
        ("YEDEK.TAR.GZ", Format::Tar),
        ("Foto.Zip", Format::Zip),
        ("notes.txt.GZ", Format::Single(Compressor::Gzip)),
        ("şarkılar ğü.7Z", Format::SevenZip),
    ];
    for (name, format) in cases {
        assert_eq!(format_of(name), Some(*format), "{name}");
    }
}

#[test]
fn other_names_are_not_archives() {
    for name in ["", "a.txt", "zip", "tar", "a.gzip", "a.tar.gz.bak", "a.zipx", "a.z", "a.tar.", "archive"] {
        assert_eq!(format_of(name), None, "{name}");
    }
}

#[test]
fn the_stem_drops_the_whole_archive_ending() {
    let cases = [
        ("yedek.tar.gz", "yedek"),
        ("yedek.TGZ", "yedek"),
        ("notes.txt.gz", "notes.txt"),
        ("a.zip", "a"),
        ("site.v2.tar.zst", "site.v2"),
        ("yay-12.0-1-x86_64.pkg.tar.zst", "yay-12.0-1-x86_64"),
        ("film.rar", "film"),
        ("debian.iso", "debian"),
        ("Yedek dosyası ğüş.tar.xz", "Yedek dosyası ğüş"),
        ("plain.txt", "plain.txt"),
    ];
    for (name, stem_of) in cases {
        assert_eq!(stem(name), stem_of, "{name}");
    }
}

#[test]
fn a_name_that_is_only_an_ending_keeps_its_name() {
    for name in [".zip", ".tar.gz", ".gz"] {
        assert_eq!(stem(name), name);
    }
}

#[test]
fn the_first_choice_of_a_name_is_the_name_itself() {
    assert_eq!(numbered(b"yedek", 1, true), b"yedek".to_vec());
    assert_eq!(numbered(b"notes.txt", 1, false), b"notes.txt".to_vec());
    assert_eq!(numbered(b"notes.txt", 0, false), b"notes.txt".to_vec());
}

#[test]
fn a_folder_name_is_numbered_at_its_end() {
    assert_eq!(numbered(b"yedek", 2, true), b"yedek 2".to_vec());
    assert_eq!(numbered(b"yedek", 3, true), b"yedek 3".to_vec());
    assert_eq!(numbered(b"site.v2", 2, true), b"site.v2 2".to_vec());
}

#[test]
fn a_file_name_is_numbered_before_its_extension() {
    assert_eq!(numbered(b"notes.txt", 2, false), b"notes 2.txt".to_vec());
    assert_eq!(numbered(b"notes.txt", 3, false), b"notes 3.txt".to_vec());
    assert_eq!(numbered(b".bashrc", 2, false), b".bashrc 2".to_vec());
    assert_eq!(numbered(b"README", 2, false), b"README 2".to_vec());
    assert_eq!(numbered("şiir -n ve ş.txt".as_bytes(), 2, false), "şiir -n ve ş 2.txt".as_bytes().to_vec());
    assert_eq!(numbered(b"a.b.c", 12, false), b"a.b 12.c".to_vec());
}

#[test]
fn a_temporary_folder_is_hidden_and_names_its_archive_and_process() {
    assert_eq!(temp_name("yedek", 4242, 7), b".yedek.qexp-4242-7".to_vec());
    assert_eq!(temp_name("", 1, 0), b"..qexp-1-0".to_vec());
}

#[test]
fn a_long_stem_is_cut_between_characters() {
    let long = "a".repeat(70);
    let name = temp_name(&long, 9, 1);
    assert_eq!(name, format!(".{}.qexp-9-1", "a".repeat(64)).into_bytes());
    // A two-byte letter across the limit is left out whole.
    let across = format!("{}ş", "a".repeat(63));
    assert_eq!(temp_name(&across, 9, 1), format!(".{}.qexp-9-1", "a".repeat(63)).into_bytes());
    let before = format!("{}ş", "a".repeat(62));
    assert_eq!(temp_name(&before, 9, 1), format!(".{before}.qexp-9-1").into_bytes());
}

// --- Tools ---

#[test]
fn the_first_installed_tool_is_taken_in_order() {
    let all = ["bsdtar", "tar", "unzip", "7z", "7zz", "7za", "unrar"];
    for format in [Format::Zip, Format::Tar, Format::SevenZip, Format::Rar, Format::Disk] {
        assert_eq!(program_for(format, &all).unwrap(), "bsdtar", "{format:?}");
    }
    assert_eq!(program_for(Format::Zip, &["unzip", "tar", "7z"]).unwrap(), "unzip");
    assert_eq!(program_for(Format::Tar, &["tar", "unzip", "7z"]).unwrap(), "tar");
    assert_eq!(program_for(Format::SevenZip, &["7z", "7zz", "7za"]).unwrap(), "7z");
    assert_eq!(program_for(Format::SevenZip, &["7zz", "7za"]).unwrap(), "7zz");
    assert_eq!(program_for(Format::SevenZip, &["7za", "unrar"]).unwrap(), "7za");
    assert_eq!(program_for(Format::Rar, &["unrar", "7z"]).unwrap(), "unrar");
    assert_eq!(program_for(Format::Rar, &["7z", "7za"]).unwrap(), "7z");
    let singles = [
        (Compressor::Gzip, "gzip"),
        (Compressor::Bzip2, "bzip2"),
        (Compressor::Xz, "xz"),
        (Compressor::Zstd, "zstd"),
        (Compressor::Lz4, "lz4"),
        (Compressor::Lzma, "xz"),
        (Compressor::Lzip, "lzip"),
    ];
    for (compressor, program) in singles {
        let names = ["bsdtar", "gzip", "bzip2", "xz", "zstd", "lz4", "lzip"];
        assert_eq!(program_for(Format::Single(compressor), &names).unwrap(), program, "{compressor:?}");
    }
}

#[test]
fn with_no_tool_the_first_one_and_its_package_are_named() {
    let cases = [
        (Format::Zip, "bsdtar", "libarchive"),
        (Format::Tar, "bsdtar", "libarchive"),
        (Format::SevenZip, "bsdtar", "libarchive"),
        (Format::Rar, "bsdtar", "libarchive"),
        (Format::Disk, "bsdtar", "libarchive"),
        (Format::Single(Compressor::Gzip), "gzip", "gzip"),
        (Format::Single(Compressor::Bzip2), "bzip2", "bzip2"),
        (Format::Single(Compressor::Xz), "xz", "xz"),
        (Format::Single(Compressor::Zstd), "zstd", "zstd"),
        (Format::Single(Compressor::Lz4), "lz4", "lz4"),
        (Format::Single(Compressor::Lzma), "xz", "xz"),
        (Format::Single(Compressor::Lzip), "lzip", "lzip"),
    ];
    for (format, wanted, package) in cases {
        assert_eq!(program_for(format, &[]), Err(Missing { wanted, package }), "{format:?}");
        // Another format's tool does not stand in.
        assert!(program_for(format, &["cat"]).is_err());
    }
    let none = probes(Format::Zip, None);
    assert!(none.is_empty());
    assert_eq!(
        plan(Format::Zip, b"a.zip", b"t", &none, &[]),
        Err(Missing { wanted: "bsdtar", package: "libarchive" })
    );
}

#[test]
fn folders_are_probed_in_order_and_relative_ones_are_skipped() {
    assert_eq!(folders(b"/first:relative/bin::/second/"), os(&["/first", "/second/"]));
    let found = probes(Format::Zip, Some(b"/first:/second"));
    let files: Vec<Vec<u8>> = found.iter().map(|probe| probe.program.clone()).collect();
    assert_eq!(
        files,
        os(&[
            "/first/bsdtar",
            "/second/bsdtar",
            "/first/unzip",
            "/second/unzip",
        ])
    );
    // The better tool wins over an earlier folder.
    let runnable = [false, true, true, true];
    let found_plan = plan(Format::Zip, b"/a.zip", b"/t", &found, &runnable).unwrap();
    assert_eq!(found_plan.program, b"/second/bsdtar".to_vec());
}

#[test]
fn each_tool_is_given_its_own_arguments() {
    let archive: &[u8] = b"/d/yedek.x";
    let into: &[u8] = b"/d/.t";
    let cases: &[(Format, &str, &[&str], Output)] = &[
        (
            Format::Zip,
            "bsdtar",
            &["--passphrase", "qexp-no-password", "-x", "-f", "/d/yedek.x", "-C", "/d/.t"],
            Output::Folder,
        ),
        (Format::Tar, "tar", &["-x", "-f", "/d/yedek.x", "-C", "/d/.t"], Output::Folder),
        (Format::Zip, "unzip", &["-P", "qexp-no-password", "/d/yedek.x", "-d", "/d/.t"], Output::Folder),
        (Format::SevenZip, "7z", &["x", "-y", "-pqexp-no-password", "-o/d/.t", "/d/yedek.x"], Output::Folder),
        (Format::SevenZip, "7zz", &["x", "-y", "-pqexp-no-password", "-o/d/.t", "/d/yedek.x"], Output::Folder),
        (Format::SevenZip, "7za", &["x", "-y", "-pqexp-no-password", "-o/d/.t", "/d/yedek.x"], Output::Folder),
        (Format::Rar, "unrar", &["x", "-idq", "-p-", "/d/yedek.x", "/d/.t/"], Output::Folder),
        (Format::Single(Compressor::Gzip), "gzip", &["-dc", "/d/yedek.x"], Output::Stdout),
        (Format::Single(Compressor::Lzma), "xz", &["-dc", "/d/yedek.x"], Output::Stdout),
        (Format::Single(Compressor::Lzip), "lzip", &["-dc", "/d/yedek.x"], Output::Stdout),
    ];
    for (format, program, args, output) in cases {
        let found = plan_with(*format, archive, into, &[program]).unwrap();
        assert_eq!(
            found,
            Plan { program: format!("/t/bin/{program}").into_bytes(), args: os(args), output: *output }
        );
    }
}

#[test]
fn a_relative_path_cannot_pass_for_an_option() {
    let zip = plan_with(Format::Zip, b"-o.zip", b"-t", &["unzip", "gzip"]).unwrap();
    assert_eq!(zip.args, os(&["-P", "qexp-no-password", "./-o.zip", "-d", "./-t"]));
    let gz = plan_with(Format::Single(Compressor::Gzip), b"-f.gz", b"t", &["unzip", "gzip"]).unwrap();
    assert_eq!(gz.args, os(&["-dc", "./-f.gz"]));
}

#[test]
fn each_tool_has_its_program_and_package() {
    assert_eq!(program(Tool::SevenZz), "7zz");
    assert_eq!(package(Tool::SevenZz), "7zip");
    assert_eq!(package(Tool::Bsdtar), "libarchive");
    assert_eq!(tools(Format::Rar), vec![Tool::Bsdtar, Tool::Unrar, Tool::SevenZ]);
    assert_eq!(tools(Format::Single(Compressor::Lzma)), vec![Tool::Xz]);
    assert_eq!(NO_PASSWORD, "qexp-no-password");
}

// --- What a tool said ---

#[test]
fn a_word_about_a_password_means_encrypted() {
    assert_eq!(failure("Incorrect passphrase\n", "", false, "exit status: 1"), ExtractError::Encrypted);
    assert_eq!(failure("", "   skipping: a.txt  need PK compat. v5.1 (can do v4.6)\n   PASSWORD incorrect", false, "x"), ExtractError::Encrypted);
    assert_eq!(failure("ERROR: Wrong password : a.txt", "", false, "x"), ExtractError::Encrypted);
    assert_eq!(failure("Data Error in encrypted file", "", false, "x"), ExtractError::Encrypted);
}

#[test]
fn the_zip_s_own_flag_means_encrypted_without_a_word() {
    assert_eq!(failure("inflate error", "", true, "exit status: 1"), ExtractError::Encrypted);
}

#[test]
fn a_failure_gives_its_last_line_of_complaint() {
    let said = "gzip: stdin: not in gzip format\nbsdtar: Error exit delayed from previous errors.\n\n";
    assert_eq!(
        failure(said, "", false, "exit status: 1"),
        ExtractError::Failed("gzip: stdin: not in gzip format".to_owned())
    );
    assert_eq!(
        failure("  \n", "  the output says why  \n", false, "exit status: 1"),
        ExtractError::Failed("the output says why".to_owned())
    );
    assert_eq!(failure("", "", false, "exit status: 9"), ExtractError::Failed("exit status: 9".to_owned()));
}

#[test]
fn the_closing_line_bsdtar_adds_is_never_the_last_line() {
    assert_eq!(last_line("first\nsecond\n"), Some("second".to_owned()));
    assert_eq!(last_line("bsdtar: Error exit delayed from previous errors."), None);
    assert_eq!(last_line("  real reason \n bsdtar: Error exit delayed from previous errors.\n"), Some("real reason".to_owned()));
    assert_eq!(last_line(""), None);
}

// --- Reading a zip ---

/// An end record for a directory of `size` bytes at `offset`, after `before` bytes of file.
fn end_record(size: u32, offset: u32) -> Vec<u8> {
    let mut record = b"PK\x05\x06".to_vec();
    record.extend_from_slice(&[0, 0, 0, 0, 1, 0, 1, 0]);
    record.extend_from_slice(&size.to_le_bytes());
    record.extend_from_slice(&offset.to_le_bytes());
    record.extend_from_slice(&[0, 0]);
    record
}

/// A directory entry for `name` with the general purpose flags `flags`.
fn entry(name: &str, flags: u16) -> Vec<u8> {
    let mut e = b"PK\x01\x02".to_vec();
    e.extend_from_slice(&[20, 3, 20, 0]);
    e.extend_from_slice(&flags.to_le_bytes());
    e.extend_from_slice(&[0; 18]);
    e.extend_from_slice(&(name.len() as u16).to_le_bytes());
    e.extend_from_slice(&[0; 16]);
    assert_eq!(e.len(), 46);
    e.extend_from_slice(name.as_bytes());
    e
}

#[test]
fn the_end_record_says_where_the_directory_is() {
    let mut tail = b"some file data".to_vec();
    tail.extend(end_record(46, 100));
    assert_eq!(directory_span(&tail, 1000), Some((100, 46)));
    // A directory that would run past the end of the file is not read.
    assert_eq!(directory_span(&tail, 120), None);
    // A zip64 record points elsewhere.
    let mut zip64 = end_record(46, 0xFFFF_FFFF);
    zip64.insert(0, 1);
    assert_eq!(directory_span(&zip64, u64::MAX), None);
    // The last record counts.
    let mut two = end_record(10, 0);
    two.extend(end_record(20, 30));
    assert_eq!(directory_span(&two, 1000), Some((30, 20)));
    // No record, or a cut one, is no zip.
    assert_eq!(directory_span(b"PK\x05", 3), None);
    assert_eq!(directory_span(b"not a zip at all, only words", 30), None);
    assert_eq!(directory_span(&end_record(46, 100)[..21], 1000), None);
}

#[test]
fn the_tail_read_is_the_whole_of_a_small_zip() {
    assert_eq!(tail_len(10), 10);
    assert_eq!(tail_len(TAIL), TAIL);
    assert_eq!(tail_len(1 << 30), 22 + 0xFFFF);
}

#[test]
fn an_entry_flagged_with_a_password_makes_the_zip_encrypted() {
    assert!(!directory_encrypted(&entry("a.txt", 0)));
    assert!(directory_encrypted(&entry("a.txt", 1)));
    assert!(directory_encrypted(&entry("a.txt", 9)));
    let mut two = entry("plain.txt", 8);
    two.extend(entry("secret.txt", 1));
    assert!(directory_encrypted(&two));
    let mut other = entry("plain.txt", 0);
    other.extend(entry("other", 2));
    assert!(!directory_encrypted(&other));
    // What does not start an entry ends the directory.
    let mut broken = entry("plain.txt", 0);
    broken.extend(b"PK\x01\x03");
    broken.extend(entry("secret.txt", 1));
    assert!(!directory_encrypted(&broken));
    assert!(!directory_encrypted(b"PK\x01\x02short"));
}

#[test]
fn the_small_letters_decide_and_the_words_as_said_are_shown() {
    assert_eq!(judged("wrong password", "Wrong Password", "", false, "x"), ExtractError::Encrypted);
    assert_eq!(judged("", "", "", true, "x"), ExtractError::Encrypted);
    // Words about a password count only in their small form.
    assert_eq!(
        judged("bad data", "PASSWORD? Bad Data", "", false, "exit status: 2"),
        ExtractError::Failed("PASSWORD? Bad Data".to_owned())
    );
    assert_eq!(judged("", "", "", false, "exit status: 2"), ExtractError::Failed("exit status: 2".to_owned()));
}

#[test]
fn a_taken_name_is_followed_by_the_next_number() {
    assert_eq!(after_claim(1, Claim::Free), Next::Done);
    assert_eq!(after_claim(1, Claim::Taken), Next::Try(2));
    assert_eq!(after_claim(7, Claim::Taken), Next::Try(8));
    assert_eq!(after_claim(3, Claim::Refused), Next::Fail);
}
