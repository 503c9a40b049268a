use avt_replenishment::package::{
    asset_redirect_path, check_download, check_program, extract_program, follow, headers,
    latest_request, may_go_on, package_request, reading, request_headers, verify_package, within,
    Reading,
};
use avt_replenishment::updates::{
    check_answer, clean_token, describe, parse_release, validate_token, Asset, Release, UpdateInfo,
    Version, RELEASES_PAGE, VERSION,
};
use sha2::{Digest, Sha256};
use std::io::{Cursor, Write};

fn release(tag: &str) -> Result<Release, String> {
    Ok(Release {
        tag_name: tag.to_string(),
        draft: false,
        prerelease: false,
        assets: vec![Asset {
            id: 0,
            digest: None,
            name: format!("AVT-Replenishment-Windows-x64-{tag}.zip"),
            state: "uploaded".to_string(),
            size: 1200,
        }],
    })
}

fn parsed(tag: &str, current: &str) -> UpdateInfo {
    match parse_release(200, &[], &release(tag), current) {
        Ok(u) => u,
        Err(e) => panic!("{}", e.message()),
    }
}

#[test]
fn semantic_versions_and_fixed_links() {
    let u = parsed("v1.10.0", "1.9.0");
    assert!(u.newer);
    assert_eq!(u.release_url, format!("{RELEASES_PAGE}/tag/v1.10.0"));
    assert!(!parsed("v1.1.0", "1.1.0").newer);
    assert!(!parsed("v1.0.1", "1.1.0").newer);
}

#[test]
fn rejects_auth_errors_and_unready_releases() {
    for code in [401, 403, 404, 429, 302, 500] {
        assert!(parse_release(code, &[], &Err(String::new()), VERSION).is_err());
    }
    for tag in ["../../evil", "v1.2.0-rc1", "v1.2.0+meta"] {
        assert!(parse_release(200, &[], &release(tag), VERSION).is_err());
    }
    let mut r = release("v2.0.0").unwrap();
    r.assets = vec![];
    let mut r = Ok(r);
    assert!(parse_release(200, &[], &r, VERSION).is_err());
    if let Ok(r) = &mut r {
        r.draft = true;
    }
    assert!(parse_release(200, &[], &r, VERSION).is_err());
    let mut r = release("v2.0.0").unwrap();
    r.draft = true;
    assert!(parse_release(200, &[], &Ok(r), VERSION).is_err());
}

#[test]
fn tokens_cannot_inject_headers() {
    assert!(validate_token("github_pat_example123").is_ok());
    for t in ["", "abc\r\nX-Evil: 1", "not a token", "abc\0def"] {
        assert!(validate_token(t).is_err());
    }
}

#[test]
fn download_integrity_and_redirect_boundaries() {
    let bytes = b"package";
    let digest = format!("sha256:{:x}", Sha256::digest(bytes));
    assert!(verify_package(bytes, 7, &digest).is_ok());
    assert!(verify_package(b"changed", 7, &digest).is_err());
    assert!(verify_package(bytes, 8, &digest).is_err());
    assert!(verify_package(bytes, 7, "sha256:bad").is_err());
    assert_eq!(
        asset_redirect_path("https://release-assets.githubusercontent.com/path?a=b").ok().unwrap(),
        "/path?a=b"
    );
    for url in [
        "http://release-assets.githubusercontent.com/path",
        "https://evil.com/path",
        "https://release-assets.githubusercontent.com.evil.com/path",
        "https://release-assets.githubusercontent.com@evil.com/path",
        "https://release-assets.githubusercontent.com/\\evil",
    ] {
        assert!(asset_redirect_path(url).is_err());
    }
}

fn pack(name: &str, data: &[u8]) -> Vec<u8> {
    let mut z = zip::ZipWriter::new(Cursor::new(Vec::new()));
    z.start_file(name, zip::write::FileOptions::default()).unwrap();
    z.write_all(data).unwrap();
    z.finish().unwrap().into_inner()
}

fn program() -> Vec<u8> {
    let mut exe = vec![0u8; 128];
    exe[..2].copy_from_slice(b"MZ");
    exe[60..64].copy_from_slice(&64u32.to_le_bytes());
    exe[64..70].copy_from_slice(b"PE\0\0\x64\x86");
    exe
}

#[test]
fn extracts_only_fixed_program_path() {
    let exe = program();
    assert_eq!(
        extract_program(&pack("AVT-Replenishment-Windows-x64/AVT-Replenishment.exe", &exe))
            .ok()
            .unwrap(),
        exe
    );
    assert!(extract_program(&pack("../../AVT-Replenishment.exe", &exe)).is_err());
    assert!(extract_program(&pack(
        "AVT-Replenishment-Windows-x64/AVT-Replenishment.exe",
        b"not exe"
    ))
    .is_err());
}

#[test]
fn programs_have_a_header() {
    let fault = |exe: &[u8]| check_program(exe).map(|e| e.message());
    assert_eq!(fault(&program()), None);
    assert_eq!(fault(b"M"), Some("更新程序格式无效。".to_string()));
    assert_eq!(fault(b"MZ"), Some("更新程序缺少 PE 标头".to_string()));
    let mut far = program();
    far[62] = 1;
    assert_eq!(fault(&far), Some("更新程序不是 Windows x64 应用。".to_string()));
    let mut other = program();
    other[68] = 0x4c;
    assert_eq!(fault(&other), Some("更新程序不是 Windows x64 应用。".to_string()));
    assert!(extract_program(b"no archive").err().unwrap().message().starts_with("更新包不是有效 ZIP: "));
    assert_eq!(
        extract_program(&pack("other", b"")).err().unwrap().message(),
        "更新包必须包含唯一的应用程序。"
    );
}

#[test]
fn answers_are_told_apart() {
    let words = |status, length| check_answer(status, length).map(|e| e.message());
    assert_eq!(words(200, 2 * 1024 * 1024), None);
    assert_eq!(words(200, 2 * 1024 * 1024 + 1), Some("更新响应过大，已停止处理。".to_string()));
    assert!(words(401, 0).unwrap().contains("已过期"));
    assert!(words(403, 0).unwrap().contains("已限流"));
    assert!(words(429, 0).unwrap().contains("已限流"));
    assert!(words(404, 0).unwrap().contains("尚未发布"));
    assert!(words(399, 0).unwrap().contains("重定向"));
    assert_eq!(words(500, 0), Some("更新检查失败（HTTP 500），请稍后重试。".to_string()));
}

#[test]
fn releases_are_described() {
    let failure = |r: Result<Release, String>, current: &str| {
        parse_release(200, &[], &r, current).err().unwrap().message()
    };
    assert_eq!(failure(Err("m".to_string()), "1.0.0"), "GitHub 版本信息格式无效: m");
    assert!(failure(release("v1"), "1.0.0").starts_with("版本号格式无效: "));
    assert_eq!(failure(release("v1.2.0-rc1"), "1.0.0"), "仅支持正式版本号。");
    assert!(!failure(release("v1.2.0"), "x").is_empty());
    let mut r = release("v1.2.0").unwrap();
    r.assets[0].size = 0;
    assert_eq!(failure(Ok(r), "1.0.0"), "最新 Release 的 Windows 安装包尚未就绪，请稍后重试。");
    assert!(parsed("v1.2.0", "1.2.0-rc1").newer);
    assert!(!parsed("v1.2.0", "1.2.0+build").newer);
    assert_eq!(parsed("v1.2.0", VERSION).latest, "1.2.0");
    let version = |major| Version {
        major,
        minor: 0,
        patch: 0,
        pre: String::new(),
        build: String::new(),
    };
    let r = Release {
        tag_name: "v3.0.0".to_string(),
        draft: false,
        prerelease: false,
        assets: vec![
            Asset {
                id: 1,
                digest: Some("d".to_string()),
                name: "AVT-Replenishment-Windows-x64-v3.0.0.zip".to_string(),
                state: "new".to_string(),
                size: 5,
            },
            Asset {
                id: 2,
                digest: None,
                name: "AVT-Replenishment-Windows-x64-v3.0.0.zip".to_string(),
                state: "uploaded".to_string(),
                size: 6,
            },
        ],
    };
    let u = describe(&r, &version(3), &version(2)).ok().unwrap();
    assert_eq!((u.asset_id, u.asset_size, u.digest.as_deref()), (1, 5, Some("d")));
}

fn info(asset_id: u64, asset_size: u64, digest: Option<&str>) -> UpdateInfo {
    UpdateInfo {
        asset_id,
        asset_size,
        digest: digest.map(|s| s.to_string()),
        latest: "1.0.0".to_string(),
        newer: true,
        release_url: String::new(),
    }
}

#[test]
fn the_token_goes_to_the_interface_only() {
    let first = latest_request();
    assert_eq!((first.host.as_str(), first.with_token), ("api.github.com", true));
    let q = package_request(&info(7, 5, Some("d"))).ok().unwrap();
    assert_eq!(q.path, "/repos/Perfect9s/AVT-Replenishment/releases/assets/7");
    assert!(q.with_token && q.binary);
    assert!(package_request(&info(0, 5, Some("d"))).is_err());
    assert!(package_request(&info(1, 67_108_865, Some("d"))).is_err());
    assert!(package_request(&info(1, 5, None)).is_err());
    let location = Some("https://release-assets.githubusercontent.com/x".to_string());
    let next = follow(302, &location).ok().unwrap().unwrap();
    assert_eq!(
        (next.host.as_str(), next.path.as_str(), next.with_token),
        ("release-assets.githubusercontent.com", "/x", false)
    );
    assert!(follow(200, &location).ok().unwrap().is_none());
    assert!(follow(302, &None).is_err());
    assert!(follow(302, &Some("https://evil.com/x".to_string())).is_err());
}

#[test]
fn downloads_are_checked_against_the_release() {
    let digest = "sha256:BA7816BF8F01CFEA414140DE5DAE2223B00361A396177A9CB410FF61F20015AD";
    assert!(check_download(&info(1, 3, Some(digest)), 200, b"abc").is_ok());
    assert!(check_download(&info(1, 3, Some(digest)), 404, b"abc").is_err());
    assert!(check_download(&info(1, 4, Some(digest)), 200, b"abc").is_err());
    assert!(check_download(&info(1, 3, Some("md5:00")), 200, b"abc").is_err());
    assert!(check_download(&info(1, 3, None), 200, b"abc").is_err());
    assert!(within(3, 4, 7) && !within(3, 5, 7) && !within(usize::MAX, 1, usize::MAX));
    assert_eq!((reading(302), reading(200), reading(404)), (Reading::Location, Reading::Body, Reading::Nothing));
}

#[test]
fn headers_hold_a_valid_token_or_none() {
    assert_eq!(
        headers(false, Some("abc_1")).ok().unwrap(),
        "Accept: application/vnd.github+json\r\nX-GitHub-Api-Version: 2022-11-28\r\nAuthorization: Bearer abc_1\r\n"
    );
    assert_eq!(
        headers(true, None).ok().unwrap(),
        "Accept: application/octet-stream\r\nX-GitHub-Api-Version: 2022-11-28\r\n"
    );
    assert!(headers(true, Some("a b")).is_err());
    assert_eq!(clean_token(" abc\n").ok().unwrap(), "abc");
    assert!(clean_token("  ").is_err());
    assert!(validate_token(&"a".repeat(1024)).is_ok());
    assert!(validate_token(&"a".repeat(1025)).is_err());
}

#[test]
fn requests_take_the_token_along_or_not() {
    let q = latest_request();
    assert_eq!(request_headers(&q, "abc").ok(), headers(false, Some("abc")).ok());
    assert!(request_headers(&q, "a b").is_err());
    let location = Some("https://release-assets.githubusercontent.com/x".to_string());
    let next = follow(302, &location).ok().unwrap().unwrap();
    assert_eq!(request_headers(&next, "abc").ok(), headers(true, None).ok());
    assert!(request_headers(&next, "a b").is_ok());
}

#[test]
fn a_request_takes_three_minutes_at_most() {
    assert!(may_go_on(0) && may_go_on(180_000_000_000));
    assert!(!may_go_on(180_000_000_001) && !may_go_on(u128::MAX));
}
