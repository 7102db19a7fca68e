use std::io::Write;
use da::upgrade::{
    binary_from_tar_gz, binary_from_zip, ExtractError, bin_name, latest_release_api_url, latest_version, release_url, target, tar_entry_is_binary,
    upgrade_step, version_of_tag, zip_entry_is_binary, Arch, Os, UpgradeError, UpgradeStep,
};

#[test]
fn targets_of_supported_platforms() {
    assert_eq!(target(Os::Linux, Arch::X86_64).unwrap(), ("x86_64-unknown-linux-gnu".to_string(), "tar.gz".to_string()));
    assert_eq!(target(Os::MacOs, Arch::Aarch64).unwrap(), ("aarch64-apple-darwin".to_string(), "tar.gz".to_string()));
    assert_eq!(target(Os::MacOs, Arch::X86_64).unwrap(), ("x86_64-apple-darwin".to_string(), "tar.gz".to_string()));
    assert_eq!(target(Os::Windows, Arch::X86_64).unwrap(), ("x86_64-pc-windows-msvc".to_string(), "zip".to_string()));
    assert_eq!(target(Os::Linux, Arch::Aarch64), Err(UpgradeError::NoPrebuilt));
    assert_eq!(target(Os::Other, Arch::X86_64), Err(UpgradeError::NoPrebuilt));
}

#[test]
fn binary_names() {
    assert_eq!(bin_name(Os::Windows), "da.exe");
    assert_eq!(bin_name(Os::Linux), "da");
}

#[test]
fn version_from_tag_drops_v() {
    assert_eq!(version_of_tag("v0.1.0"), "0.1.0");
    assert_eq!(version_of_tag("vv1"), "1");
    assert_eq!(version_of_tag("1.2"), "1.2");
}

#[test]
fn latest_version_from_github_answer() {
    assert_eq!(latest_version(r#"{"tag_name":"v1.4.2","name":"x"}"#).unwrap(), "1.4.2");
    assert_eq!(latest_version(r#"{"name":"x"}"#), Err(UpgradeError::NoTagName));
    assert_eq!(latest_version(r#"{"tag_name":3}"#), Err(UpgradeError::NoTagName));
    assert!(matches!(latest_version("not json"), Err(UpgradeError::BadResponse(_))));
}

#[test]
fn upgrade_decisions() {
    assert_eq!(upgrade_step("0.1.0", "0.1.0", false), UpgradeStep::UpToDate);
    assert_eq!(upgrade_step("0.1.0", "0.1.0", true), UpgradeStep::Reinstall);
    assert_eq!(upgrade_step("0.2.0", "0.1.0", false), UpgradeStep::Install);
}

#[test]
fn release_addresses() {
    assert_eq!(
        release_url("0.2.0", "x86_64-unknown-linux-gnu", "tar.gz"),
        "https://github.com/KingTimer12/da-cli/releases/download/v0.2.0/da-x86_64-unknown-linux-gnu.tar.gz"
    );
    assert_eq!(latest_release_api_url(), "https://api.github.com/repos/KingTimer12/da-cli/releases/latest");
}

#[test]
fn archive_entries_that_are_the_program() {
    assert!(tar_entry_is_binary("da-x86_64/da", "da"));
    assert!(tar_entry_is_binary("da", "da"));
    assert!(!tar_entry_is_binary("da/README", "da"));
    assert!(!tar_entry_is_binary("bin/dax", "da"));
    assert!(zip_entry_is_binary("pkg/da.exe", "da.exe"));
    assert!(!zip_entry_is_binary("pkg/da.exe.sha256", "da.exe"));
}

fn tar_gz(entries: &[(&str, &[u8])]) -> Vec<u8> {
    let enc = flate2::write::GzEncoder::new(Vec::new(), flate2::Compression::new(1));
    let mut b = tar::Builder::new(enc);
    for (path, data) in entries {
        let mut h = tar::Header::new_gnu();
        h.set_size(data.len() as u64);
        h.set_mode(0o755);
        h.set_cksum();
        b.append_data(&mut h, path, *data).unwrap();
    }
    b.into_inner().unwrap().finish().unwrap()
}

fn zip_of(entries: &[(&str, &[u8])]) -> Vec<u8> {
    let mut w = zip::ZipWriter::new(std::io::Cursor::new(Vec::new()));
    let opts = zip::write::SimpleFileOptions::default()
        .compression_method(zip::CompressionMethod::Stored);
    for (name, data) in entries {
        w.start_file(*name, opts).unwrap();
        w.write_all(data).unwrap();
    }
    w.finish().unwrap().into_inner()
}

#[test]
fn program_taken_from_tar_gz_release() {
    let a = tar_gz(&[("da-x86_64/README.md", b"readme"), ("da-x86_64/da", b"\x7fELF-new"), ("other/da", b"second")]);
    assert_eq!(binary_from_tar_gz(&a, "da").unwrap(), b"\x7fELF-new".to_vec());
    let none = tar_gz(&[("README.md", b"readme")]);
    assert_eq!(binary_from_tar_gz(&none, "da"), Err(ExtractError::NotFound));
    assert!(matches!(binary_from_tar_gz(b"not a gzip file", "da"), Err(ExtractError::Archive(_))));
}

#[test]
fn program_taken_from_zip_release() {
    let a = zip_of(&[("pkg/LICENSE", b"mit"), ("pkg/da.exe", b"MZ-new"), ("pkg/da.exe.sha256", b"abc")]);
    assert_eq!(binary_from_zip(&a, "da.exe").unwrap(), b"MZ-new".to_vec());
    let none = zip_of(&[("pkg/LICENSE", b"mit")]);
    assert_eq!(binary_from_zip(&none, "da.exe"), Err(ExtractError::NotFound));
    assert!(matches!(binary_from_zip(b"not a zip file", "da.exe"), Err(ExtractError::Archive(_))));
}

#[test]
fn platform_names() {
    assert_eq!(Os::from_name("linux"), Os::Linux);
    assert_eq!(Os::from_name("macos"), Os::MacOs);
    assert_eq!(Os::from_name("windows"), Os::Windows);
    assert_eq!(Os::from_name("freebsd"), Os::Other);
    assert_eq!(Arch::from_name("x86_64"), Arch::X86_64);
    assert_eq!(Arch::from_name("aarch64"), Arch::Aarch64);
    assert_eq!(Arch::from_name("riscv64"), Arch::Other);
}

#[test]
fn entries_before_the_program_are_not_read() {
    let mut a = zip_of(&[("pkg/README", b"readme-text"), ("pkg/da.exe", b"MZ-new")]);
    // Damage the stored content of the first entry: its checksum no longer holds.
    let at = a.windows(11).position(|w| w == b"readme-text").unwrap();
    a[at] ^= 0xff;
    assert_eq!(binary_from_zip(&a, "da.exe").unwrap(), b"MZ-new".to_vec());
}
