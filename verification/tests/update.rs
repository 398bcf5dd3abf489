use drawskill::update::{
    archive_kind, extract_tar_gz, extract_zip, is_dev_build, newer_version, parse_u32, parse_version,
    platform_archive, release_tag, release_url, tar_member_is_binary, zip_member_is_binary,
    ArchiveKind, TagError,
};
use std::io::Write;

#[test]
fn version_ordering() {
    assert!(parse_version("0.1.1") > parse_version("0.1.0"));
    assert!(parse_version("1.0.0") > parse_version("0.9.9"));
    assert!(parse_version("0.2.0") > parse_version("0.1.99"));
    assert_eq!(parse_version("0.1.0"), parse_version("v0.1.0"));
}

#[test]
fn parse_version_defaults_missing_and_bad_parts() {
    assert_eq!(parse_version("1.2.3"), (1, 2, 3));
    assert_eq!(parse_version("vv2"), (2, 0, 0));
    assert_eq!(parse_version("1.x.3"), (1, 0, 3));
    assert_eq!(parse_version(""), (0, 0, 0));
    assert_eq!(parse_version("1.2.3.4"), (1, 2, 3));
    assert_eq!(parse_version("1.2.3-beta"), (1, 2, 0));
    assert_eq!(parse_version("4294967296.1.1"), (0, 1, 1));
}

#[test]
fn parse_u32_follows_from_str() {
    let p = |s: &str| parse_u32(&s.chars().collect::<Vec<char>>());
    assert_eq!(p("0"), Some(0));
    assert_eq!(p("+7"), Some(7));
    assert_eq!(p("007"), Some(7));
    assert_eq!(p("4294967295"), Some(u32::MAX));
    assert_eq!(p("4294967296"), None);
    assert_eq!(p(""), None);
    assert_eq!(p("+"), None);
    assert_eq!(p("-1"), None);
    assert_eq!(p(" 1"), None);
    for s in ["12", "+3", "99999999999", "1a"] {
        assert_eq!(p(s), s.parse::<u32>().ok());
    }
}

#[test]
fn platform_archives() {
    assert_eq!(platform_archive("linux", "x86_64"), Ok("linux-x86_64.tar.gz"));
    assert_eq!(platform_archive("linux", "aarch64"), Ok("linux-aarch64.tar.gz"));
    assert_eq!(platform_archive("macos", "x86_64"), Ok("macos-x86_64.tar.gz"));
    assert_eq!(platform_archive("macos", "aarch64"), Ok("macos-aarch64.tar.gz"));
    assert_eq!(platform_archive("windows", "x86_64"), Ok("windows-x86_64.zip"));
    assert_eq!(
        platform_archive("windows", "aarch64"),
        Err("unsupported platform: windows/aarch64".to_string())
    );
    assert_eq!(
        platform_archive("freebsd", "x86_64"),
        Err("unsupported platform: freebsd/x86_64".to_string())
    );
}

#[test]
fn archive_kinds_and_members() {
    assert_eq!(archive_kind("linux-x86_64.tar.gz"), ArchiveKind::TarGz);
    assert_eq!(archive_kind("windows-x86_64.zip"), ArchiveKind::Zip);
    assert_eq!(archive_kind("tar.gz"), ArchiveKind::Zip);
    assert!(zip_member_is_binary("diagram.exe"));
    assert!(zip_member_is_binary("diagram-windows/diagram.exe"));
    assert!(!zip_member_is_binary("notdiagram.exe"));
    assert!(!zip_member_is_binary("diagram.exe.txt"));
    assert!(tar_member_is_binary(Some("diagram")));
    assert!(!tar_member_is_binary(Some("diagram.exe")));
    assert!(!tar_member_is_binary(None));
}

fn zip_of(members: &[(&str, &[u8])]) -> Vec<u8> {
    let mut w = zip::ZipWriter::new(std::io::Cursor::new(Vec::new()));
    let opts = zip::write::SimpleFileOptions::default()
        .compression_method(zip::CompressionMethod::Stored);
    for (name, data) in members {
        w.start_file(*name, opts).unwrap();
        w.write_all(data).unwrap();
    }
    w.finish().unwrap().into_inner()
}

#[test]
fn extract_zip_finds_the_first_binary() {
    let data = zip_of(&[
        ("README.md", b"read me"),
        ("dist/diagram.exe", b"MZ first"),
        ("diagram.exe", b"MZ second"),
    ]);
    assert_eq!(extract_zip(data).unwrap(), b"MZ first".to_vec());
}

#[test]
fn extract_zip_without_binary_fails() {
    let data = zip_of(&[("README.md", b"read me"), ("diagram", b"elf")]);
    assert_eq!(
        extract_zip(data),
        Err("could not find 'diagram.exe' in archive".to_string())
    );
}

#[test]
fn extract_zip_rejects_non_archives() {
    assert!(extract_zip(b"not a zip".to_vec()).is_err());
}

#[test]
fn release_tag_reads_tag_name() {
    assert_eq!(
        release_tag(r#"{"tag_name": "v1.2.3", "name": "x"}"#).unwrap(),
        "v1.2.3"
    );
    assert!(matches!(release_tag(r#"{"name": "x"}"#), Err(TagError::Missing)));
    assert!(matches!(release_tag(r#"{"tag_name": 5}"#), Err(TagError::Missing)));
    assert!(matches!(release_tag("[1, 2]"), Err(TagError::Missing)));
    assert!(matches!(release_tag("not json"), Err(TagError::Json(_))));
}

#[test]
fn dev_builds_and_newer_versions() {
    assert!(is_dev_build("0.1.0-dev"));
    assert!(!is_dev_build("0.1.0"));
    assert_eq!(newer_version("v0.2.0", "0.1.9"), Some("0.2.0".to_string()));
    assert_eq!(newer_version("vv1.0.0", "0.9.9"), Some("1.0.0".to_string()));
    assert_eq!(newer_version("v0.1.0", "0.1.0"), None);
    assert_eq!(newer_version("v0.0.9", "0.1.0"), None);
}

#[test]
fn release_urls() {
    assert_eq!(
        release_url("owner/diagram", "0.2.0", "linux-x86_64.tar.gz"),
        "https://github.com/owner/diagram/releases/download/v0.2.0/linux-x86_64.tar.gz"
    );
}

fn tar_gz_of(members: &[(&str, &[u8])]) -> Vec<u8> {
    let enc = flate2::write::GzEncoder::new(Vec::new(), flate2::Compression::default());
    let mut b = tar::Builder::new(enc);
    for (name, data) in members {
        let mut h = tar::Header::new_gnu();
        h.set_size(data.len() as u64);
        h.set_mode(0o755);
        h.set_cksum();
        b.append_data(&mut h, *name, *data).unwrap();
    }
    b.into_inner().unwrap().finish().unwrap()
}

#[test]
fn extract_tar_gz_finds_the_first_binary() {
    let data = tar_gz_of(&[
        ("README.md", b"read me"),
        ("dist/diagram", b"ELF first"),
        ("diagram", b"ELF second"),
    ]);
    assert_eq!(extract_tar_gz(&data).unwrap(), b"ELF first".to_vec());
}

#[test]
fn extract_tar_gz_without_binary_fails() {
    let data = tar_gz_of(&[("README.md", b"read me"), ("diagram.exe", b"MZ")]);
    assert_eq!(
        extract_tar_gz(&data),
        Err("could not find 'diagram' binary in archive".to_string())
    );
}

#[test]
fn extract_tar_gz_rejects_non_archives() {
    assert!(extract_tar_gz(b"not a tarball").is_err());
}
