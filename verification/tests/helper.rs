use safa_core::digest::{algo_for, digest_matches, hex_lower, parse_digest, verify_digest, DigestAlgorithm, DigestError};
use safa_core::toolchain::{
    pick_toolchain_asset, select_executables, ArchTarget, BuildError, CargoMessage, HostOS, LinuxABI, Release,
    ReleaseAsset,
};

const ABC_SHA256: &str = "ba7816bf8f01cfea414140de5dae2223b00361a396177a9cb410ff61f20015ad";

#[test]
fn digest_names_and_hex() {
    assert_eq!(algo_for(b"sha256"), Some(DigestAlgorithm::Sha256));
    assert_eq!(algo_for(b"sha384"), Some(DigestAlgorithm::Sha384));
    assert_eq!(algo_for(b"sha512"), Some(DigestAlgorithm::Sha512));
    assert_eq!(algo_for(b"md5"), None);
    assert_eq!(hex_lower(&[0x00, 0xAB, 0x7F]), b"00ab7f".to_vec());
    assert!(digest_matches(&[0xAB, 0xCD], b"ABcd"));
    assert!(!digest_matches(&[0xAB, 0xCD], b"abce"));
    assert!(!digest_matches(&[0xAB, 0xCD], b"abcd00"));
}

#[test]
fn digest_parsing() {
    let (a, v) = parse_digest(b"sha512:00ff").unwrap();
    assert_eq!(a, DigestAlgorithm::Sha512);
    assert_eq!(v, b"00ff".to_vec());
    assert_eq!(parse_digest(b"sha256").unwrap_err(), DigestError::Malformed);
    assert_eq!(parse_digest(b"blake3:00").unwrap_err(), DigestError::UnsupportedAlgorithm);
}

#[test]
fn digest_of_contents() {
    let good = format!("sha256:{ABC_SHA256}");
    assert_eq!(verify_digest(b"abc", good.as_bytes()), Ok(true));
    let upper = format!("sha256:{}", ABC_SHA256.to_uppercase());
    assert_eq!(verify_digest(b"abc", upper.as_bytes()), Ok(true));
    assert_eq!(verify_digest(b"abd", good.as_bytes()), Ok(false));
    assert_eq!(verify_digest(b"abc", b"nonsense"), Err(DigestError::Malformed));
    // the digest of nothing with SHA-384 starts 38b060a7
    let d = verify_digest(b"", b"sha384:38b060a751ac96384cd9327eb1b1e36a21fdb71114be07434c0cc7bf63f6e1da274edebfe76f65fbd51ad2f14898b95b");
    assert_eq!(d, Ok(true));
}

fn artifact(bin: bool, exe: Option<&str>, name: &str) -> CargoMessage {
    CargoMessage::CompilerArtifact {
        is_bin: bin,
        executable: exe.map(|e| e.as_bytes().to_vec()),
        name: name.as_bytes().to_vec(),
    }
}

#[test]
fn build_executables() {
    let ok = vec![
        artifact(false, None, "libdep"),
        artifact(true, Some("/t/init"), "init"),
        CargoMessage::Other,
        artifact(true, Some("/t/sh"), "sh"),
        artifact(true, None, "nothing"),
        CargoMessage::BuildFinished { success: true },
    ];
    assert_eq!(
        select_executables(&ok).unwrap(),
        vec![(b"/t/init".to_vec(), b"init".to_vec()), (b"/t/sh".to_vec(), b"sh".to_vec())]
    );
    assert_eq!(select_executables(&vec![CargoMessage::Other]).unwrap_err(), BuildError::NoBuildStatus);
    assert_eq!(
        select_executables(&vec![CargoMessage::BuildFinished { success: true }, artifact(true, Some("/x"), "x")])
            .unwrap_err(),
        BuildError::MultipleExecutables
    );
    assert_eq!(
        select_executables(&vec![CargoMessage::BuildFinished { success: false }]).unwrap_err(),
        BuildError::BuildFailed
    );
    assert_eq!(select_executables(&vec![CargoMessage::BuildFinished { success: true }]).unwrap(), vec![]);
}

fn asset(name: &str, url: Option<&str>, digest: Option<&str>) -> ReleaseAsset {
    ReleaseAsset {
        name: Some(name.as_bytes().to_vec()),
        browser_download_url: url.map(|u| u.as_bytes().to_vec()),
        digest: digest.map(|d| d.as_bytes().to_vec()),
    }
}

#[test]
fn toolchain_release_asset() {
    let host = (ArchTarget::X86_64, HostOS::Linux(LinuxABI::Gnu));
    let releases = vec![
        Release { tag_name: Some(b"v1.89.0".to_vec()), assets: Some(vec![]) },
        Release {
            tag_name: Some(b"v1.90.0-2".to_vec()),
            assets: Some(vec![
                asset("1.90.0-aarch64-unknown-safaos-x86_64-linux-gnu.tar.gz", Some("u1"), Some("d1")),
                asset("1.90.0-x86_64-unknown-safaos-x86_64-linux-gnu.tar.gz", Some("u2"), Some("d2")),
            ]),
        },
        Release {
            tag_name: Some(b"v1.90.0-3".to_vec()),
            assets: Some(vec![asset("1.90.0-x86_64-unknown-safaos-x86_64-linux-gnu.tar.gz", Some("u3"), Some("d3"))]),
        },
    ];
    let picked = pick_toolchain_asset(&releases, b"v1.90.0", ArchTarget::X86_64, host).unwrap();
    assert_eq!(picked.0, b"u2".to_vec());
    assert_eq!(picked.1, b"d2".to_vec());
    assert_eq!(picked.2, b"1.90.0-x86_64-unknown-safaos-x86_64-linux-gnu.tar.gz".to_vec());
    assert_eq!(pick_toolchain_asset(&releases, b"v1.90.0", ArchTarget::Arm64, host).unwrap().0, b"u1".to_vec());
    // only the first release of the version is looked at
    let mac = (ArchTarget::Arm64, HostOS::MacOS);
    assert!(pick_toolchain_asset(&releases, b"v1.90.0", ArchTarget::X86_64, mac).is_none());
    assert!(pick_toolchain_asset(&releases, b"v2", ArchTarget::X86_64, host).is_none());
    let no_digest = vec![Release {
        tag_name: Some(b"v1.90.0".to_vec()),
        assets: Some(vec![asset("1.90.0-x86_64-unknown-safaos-x86_64-linux-gnu", Some("u"), None)]),
    }];
    assert!(pick_toolchain_asset(&no_digest, b"v1.90.0", ArchTarget::X86_64, host).is_none());
}
