//! The package of a new version: asking for it, and what it must hold before it is taken.

use crate::archive::{
    content_named, file_names, last_named, named_parts_are_found, open_archive, part_names,
    read_named, Part,
};
use crate::source::{
    bytes_are_written_in_hexadecimal, fingerprint, hash, hexadecimal_length, sha256,
};
use crate::text::{
    begins, chars, control, decimal, digit, has_prefix, has_text, is_control, lower, lower_case,
    lower_char, numeral, part, same, stands_between, text,
};
use crate::updates::{
    validate_token, valid_token, UpdateError, UpdateErrorView, UpdateInfo, UpdateView, API_PATH,
    REPOSITORY,
};
use crate::xml::optional;
use vstd::prelude::*;
use vstd::string::StringExecFns;

verus! {

/// The most bytes that a package or a program may have.
pub const LIMIT: u64 = 67_108_864;

/// Why a package is not taken.
pub enum PackageError {
    /// What is known of it is incomplete, or it is too large.
    Incomplete,
    /// There is no digest to check it by.
    NoDigest,
    /// The answer leads on without saying where to.
    NoLocation,
    /// The address does not belong to the release assets.
    Foreign,
    /// The address is not valid.
    Address,
    /// The download failed with the given status.
    Status(u32),
    /// The digest is of an algorithm that is not supported.
    Algorithm,
    /// The size or the digest is not the right one.
    Mismatch,
    /// It is no archive, with the message of the error.
    NotZip(String),
    /// The program is not in it.
    NoProgram,
    /// The program cannot be read, with the message of the error.
    Unreadable(String),
    /// The program is too large.
    TooLarge,
    /// The program is none.
    Format,
    /// The program has no header.
    NoHeader,
    /// The program is for another machine.
    Machine,
}

/// Why a package is not taken, in contracts.
pub enum PackageErrorView {
    Incomplete,
    NoDigest,
    NoLocation,
    Foreign,
    Address,
    Status(nat),
    Algorithm,
    Mismatch,
    NotZip(Seq<char>),
    NoProgram,
    Unreadable(Seq<char>),
    TooLarge,
    Format,
    NoHeader,
    Machine,
}

impl View for PackageError {
    type V = PackageErrorView;

    open spec fn view(&self) -> PackageErrorView {
        match self {
            PackageError::Incomplete => PackageErrorView::Incomplete,
            PackageError::NoDigest => PackageErrorView::NoDigest,
            PackageError::NoLocation => PackageErrorView::NoLocation,
            PackageError::Foreign => PackageErrorView::Foreign,
            PackageError::Address => PackageErrorView::Address,
            PackageError::Status(n) => PackageErrorView::Status(*n as nat),
            PackageError::Algorithm => PackageErrorView::Algorithm,
            PackageError::Mismatch => PackageErrorView::Mismatch,
            PackageError::NotZip(m) => PackageErrorView::NotZip(m@),
            PackageError::NoProgram => PackageErrorView::NoProgram,
            PackageError::Unreadable(m) => PackageErrorView::Unreadable(m@),
            PackageError::TooLarge => PackageErrorView::TooLarge,
            PackageError::Format => PackageErrorView::Format,
            PackageError::NoHeader => PackageErrorView::NoHeader,
            PackageError::Machine => PackageErrorView::Machine,
        }
    }
}

impl PackageErrorView {
    /// The error in words.
    pub open spec fn words(self) -> Seq<char> {
        match self {
            PackageErrorView::Incomplete => "更新包信息不完整或过大。"@,
            PackageErrorView::NoDigest => "更新包缺少 SHA-256 校验值，已停止更新"@,
            PackageErrorView::NoLocation => "缺少下载地址"@,
            PackageErrorView::Foreign => "更新包下载地址不属于 GitHub，已停止"@,
            PackageErrorView::Address => "更新包下载地址无效"@,
            PackageErrorView::Status(n) => "更新包下载失败（HTTP "@ + numeral(n)
                + "）。请确认 Token 的仓库只读权限。"@,
            PackageErrorView::Algorithm => "更新包校验算法不受支持"@,
            PackageErrorView::Mismatch => "更新包大小或 SHA-256 校验失败，原程序未修改。"@,
            PackageErrorView::NotZip(m) => "更新包不是有效 ZIP: "@ + m,
            PackageErrorView::NoProgram => "更新包必须包含唯一的应用程序。"@,
            PackageErrorView::Unreadable(m) => m,
            PackageErrorView::TooLarge => "更新程序超过大小限制。"@,
            PackageErrorView::Format => "更新程序格式无效。"@,
            PackageErrorView::NoHeader => "更新程序缺少 PE 标头"@,
            PackageErrorView::Machine => "更新程序不是 Windows x64 应用。"@,
        }
    }
}

impl PackageError {
    /// The error in words.
    pub fn message(&self) -> (r: String)
        ensures
            r@ == self@.words(),
    {
        match self {
            PackageError::Incomplete => "更新包信息不完整或过大。".to_string(),
            PackageError::NoDigest => "更新包缺少 SHA-256 校验值，已停止更新".to_string(),
            PackageError::NoLocation => "缺少下载地址".to_string(),
            PackageError::Foreign => "更新包下载地址不属于 GitHub，已停止".to_string(),
            PackageError::Address => "更新包下载地址无效".to_string(),
            PackageError::Status(n) => {
                let mut r: String = "更新包下载失败（HTTP ".to_string();
                let number: String = decimal(*n as u64);
                r.append(number.as_str());
                r.append("）。请确认 Token 的仓库只读权限。");
                r
            },
            PackageError::Algorithm => "更新包校验算法不受支持".to_string(),
            PackageError::Mismatch => "更新包大小或 SHA-256 校验失败，原程序未修改。".to_string(),
            PackageError::NotZip(m) => {
                let mut r: String = "更新包不是有效 ZIP: ".to_string();
                r.append(m.as_str());
                r
            },
            PackageError::NoProgram => "更新包必须包含唯一的应用程序。".to_string(),
            PackageError::Unreadable(m) => m.clone(),
            PackageError::TooLarge => "更新程序超过大小限制。".to_string(),
            PackageError::Format => "更新程序格式无效。".to_string(),
            PackageError::NoHeader => "更新程序缺少 PE 标头".to_string(),
            PackageError::Machine => "更新程序不是 Windows x64 应用。".to_string(),
        }
    }
}

/// A character that has no place in an address.
pub open spec fn unsafe_char(c: char) -> bool {
    control(c) || c == '\\'
}

/// The path that an address of a release asset leads to, on the host of the release assets.
pub open spec fn redirect_path(url: Seq<char>) -> Result<Seq<char>, PackageErrorView> {
    let host = "https://release-assets.githubusercontent.com/"@;
    if !begins(url, host) {
        Err(PackageErrorView::Foreign)
    } else if url.len() == host.len() || exists|i: int|
        0 <= i < url.len() && unsafe_char(#[trigger] url[i]) {
        Err(PackageErrorView::Address)
    } else {
        Ok(url.skip(host.len() - 1))
    }
}

/// Whether a text holds a character that has no place in an address.
fn has_unsafe(x: &Vec<char>) -> (r: bool)
    ensures
        r == exists|i: int| 0 <= i < x@.len() && unsafe_char(#[trigger] x@[i]),
{
    let mut i: usize = 0;
    while i < x.len()
        invariant
            i <= x.len(),
            forall|j: int| 0 <= j < i ==> !unsafe_char(#[trigger] x@[j]),
        decreases x.len() - i,
    {
        if is_control(x[i]) || x[i] == '\\' {
            assert(unsafe_char(x@[i as int]));
            return true;
        }
        i = i + 1;
    }
    false
}

/// The path that an address of a release asset leads to, on the host of the release assets.
pub fn asset_redirect_path(url: &str) -> (r: Result<String, PackageError>)
    ensures
        redirect_path(url@) == (match r {
            Ok(s) => Ok::<Seq<char>, PackageErrorView>(s@),
            Err(e) => Err(e@),
        }),
{
    if !has_prefix(url, "https://release-assets.githubusercontent.com/") {
        return Err(PackageError::Foreign);
    }
    let host: Vec<char> = chars("https://release-assets.githubusercontent.com/");
    proof {
        reveal_strlit("https://release-assets.githubusercontent.com/");
    }
    let x: Vec<char> = chars(url);
    if x.len() == host.len() || has_unsafe(&x) {
        return Err(PackageError::Address);
    }
    let rest: Vec<char> = part(x.as_slice(), host.len() - 1, x.len());
    assert(rest@ =~= url@.skip(host@.len() - 1));
    Ok(text(&rest))
}

/// An address that is followed is one of the release assets: its path starts with a slash and holds
/// no control character and no backslash.
pub proof fn only_release_assets_are_followed(url: Seq<char>, i: int)
    requires
        redirect_path(url) is Ok,
        0 <= i < redirect_path(url)->Ok_0.len(),
    ensures
        "https://release-assets.githubusercontent.com"@ + redirect_path(url)->Ok_0 == url,
        redirect_path(url)->Ok_0[0] == '/',
        !unsafe_char(redirect_path(url)->Ok_0[i]),
{
    let host = "https://release-assets.githubusercontent.com/"@;
    let short = "https://release-assets.githubusercontent.com"@;
    reveal_strlit("https://release-assets.githubusercontent.com/");
    reveal_strlit("https://release-assets.githubusercontent.com");
    let n = host.len() as int;
    let path = redirect_path(url)->Ok_0;
    assert(url.subrange(0, n) == host);
    assert forall|k: int| 0 <= k < n implies url[k] == host[k] by {
        assert(url.subrange(0, n)[k] == url[k]);
    }
    assert(short =~= host.take(n - 1));
    assert(short + path =~= url);
    assert(path[i] == url[n - 1 + i]);
}

/// A hexadecimal digit.
pub open spec fn hex_char(c: char) -> bool {
    digit(c) || ('a' <= c && c <= 'f') || ('A' <= c && c <= 'F')
}

/// Sixty-four hexadecimal digits.
pub open spec fn digest_shape(s: Seq<char>) -> bool {
    s.len() == 64 && forall|i: int| 0 <= i < s.len() ==> hex_char(#[trigger] s[i])
}

/// Why a package is not the one with the given size and digest, if it is not.
pub open spec fn package_fault(bytes: Seq<u8>, size: nat, digest: Seq<char>) -> Option<
    PackageErrorView,
> {
    if !begins(digest, "sha256:"@) {
        Some(PackageErrorView::Algorithm)
    } else {
        let expected = digest.skip(7);
        if digest_shape(expected) && bytes.len() == size && fingerprint(bytes) == lower(expected) {
            None
        } else {
            Some(PackageErrorView::Mismatch)
        }
    }
}

/// Whether a text is sixty-four hexadecimal digits.
fn is_digest(x: &Vec<char>) -> (r: bool)
    ensures
        r == digest_shape(x@),
{
    if x.len() != 64 {
        return false;
    }
    let mut i: usize = 0;
    while i < x.len()
        invariant
            i <= x.len(),
            forall|j: int| 0 <= j < i ==> hex_char(#[trigger] x@[j]),
        decreases x.len() - i,
    {
        let c: char = x[i];
        if !(('0' <= c && c <= '9') || ('a' <= c && c <= 'f') || ('A' <= c && c <= 'F')) {
            return false;
        }
        i = i + 1;
    }
    true
}

/// Checks a package by its size and its digest.
pub fn verify_package(bytes: &[u8], size: u64, digest: &str) -> (r: Result<(), PackageError>)
    ensures
        package_fault(bytes@, size as nat, digest@) == (match r {
            Ok(()) => None,
            Err(e) => Some(e@),
        }),
{
    if !has_prefix(digest, "sha256:") {
        return Err(PackageError::Algorithm);
    }
    proof {
        reveal_strlit("sha256:");
    }
    let x: Vec<char> = chars(digest);
    let rest: Vec<char> = part(x.as_slice(), 7, x.len());
    assert(rest@ =~= digest@.skip(7));
    if !is_digest(&rest) || bytes.len() as u64 != size {
        return Err(PackageError::Mismatch);
    }
    let expected: String = text(&rest);
    let low: String = lower_case(expected.as_str());
    let actual: String = hash(bytes);
    if same(actual.as_str(), low.as_str()) {
        Ok(())
    } else {
        Err(PackageError::Mismatch)
    }
}

/// A number of four bytes, the lowest first.
pub open spec fn little_endian(b: Seq<u8>) -> int {
    b[0] + b[1] * 0x100 + b[2] * 0x10000 + b[3] * 0x1000000
}

/// Why bytes are not a program for 64-bit Windows, if they are not.
pub open spec fn program_fault(exe: Seq<u8>) -> Option<PackageErrorView> {
    if exe.len() > LIMIT || exe.len() < 2 || exe[0] != 0x4d || exe[1] != 0x5a {
        Some(PackageErrorView::Format)
    } else if exe.len() < 64 {
        Some(PackageErrorView::NoHeader)
    } else {
        let at = little_endian(exe.subrange(60, 64));
        if at + 6 <= exe.len() && exe.subrange(at, at + 6) == seq![
            0x50u8,
            0x45u8,
            0u8,
            0u8,
            0x64u8,
            0x86u8,
        ] {
            None
        } else {
            Some(PackageErrorView::Machine)
        }
    }
}

/// Why bytes are not a program for 64-bit Windows, if they are not.
pub fn check_program(exe: &[u8]) -> (r: Option<PackageError>)
    ensures
        program_fault(exe@) == (match r {
            Some(e) => Some(e@),
            None => None,
        }),
{
    let n: usize = exe.len();
    if n as u64 > LIMIT || n < 2 || exe[0] != 0x4d || exe[1] != 0x5a {
        return Some(PackageError::Format);
    }
    if n < 64 {
        return Some(PackageError::NoHeader);
    }
    let at: u64 = exe[60] as u64 + exe[61] as u64 * 0x100 + exe[62] as u64 * 0x10000 + exe[63] as u64
        * 0x1000000;
    assert(at == little_endian(exe@.subrange(60, 64)));
    if at + 6 > n as u64 {
        return Some(PackageError::Machine);
    }
    let i: usize = at as usize;
    if exe[i] == 0x50 && exe[i + 1] == 0x45 && exe[i + 2] == 0 && exe[i + 3] == 0 && exe[i + 4]
        == 0x64 && exe[i + 5] == 0x86 {
        assert(exe@.subrange(at as int, at + 6) =~= seq![
            0x50u8,
            0x45u8,
            0u8,
            0u8,
            0x64u8,
            0x86u8,
        ]);
        None
    } else {
        proof {
            let header = exe@.subrange(at as int, at + 6);
            assert(header[0] == exe@[i as int]);
            assert(header[1] == exe@[i + 1]);
            assert(header[2] == exe@[i + 2]);
            assert(header[3] == exe@[i + 3]);
            assert(header[4] == exe@[i + 4]);
            assert(header[5] == exe@[i + 5]);
        }
        Some(PackageError::Machine)
    }
}

/// The program in a package, or why it is not taken.
pub open spec fn program_in(bytes: Seq<u8>) -> Result<Seq<u8>, PackageErrorView> {
    let name = "AVT-Replenishment-Windows-x64/AVT-Replenishment.exe"@;
    match part_names(bytes) {
        Err(m) => Err(PackageErrorView::NotZip(m)),
        Ok(names) => if last_named(names, name) is None {
            Err(PackageErrorView::NoProgram)
        } else {
            match content_named(bytes, name, (LIMIT + 1) as nat) {
                Err(m) => Err(PackageErrorView::Unreadable(m)),
                Ok((size, data)) => if size > LIMIT {
                    Err(PackageErrorView::TooLarge)
                } else {
                    match data {
                        Err(m) => Err(PackageErrorView::Unreadable(m)),
                        Ok(exe) => match program_fault(exe) {
                            Some(e) => Err(e),
                            None => Ok(exe),
                        },
                    }
                },
            }
        },
    }
}

/// Takes the program out of a package. It has a fixed name, and only a program for 64-bit Windows
/// is taken.
pub fn extract_program(bytes: &[u8]) -> (r: Result<Vec<u8>, PackageError>)
    ensures
        program_in(bytes@) == (match r {
            Ok(v) => Ok::<Seq<u8>, PackageErrorView>(v@),
            Err(e) => Err(e@),
        }),
{
    let mut z = match open_archive(bytes) {
        Ok(z) => z,
        Err(m) => {
            return Err(PackageError::NotZip(m));
        },
    };
    let names: Vec<String> = file_names(&z);
    proof {
        named_parts_are_found(
            part_names(bytes@)->Ok_0,
            "AVT-Replenishment-Windows-x64/AVT-Replenishment.exe"@,
        );
    }
    if !has_text(&names, "AVT-Replenishment-Windows-x64/AVT-Replenishment.exe") {
        return Err(PackageError::NoProgram);
    }
    let file: Part = match read_named(
        &mut z,
        "AVT-Replenishment-Windows-x64/AVT-Replenishment.exe",
        LIMIT + 1,
    ) {
        Ok(p) => p,
        Err(m) => {
            return Err(PackageError::Unreadable(m));
        },
    };
    if file.size > LIMIT {
        return Err(PackageError::TooLarge);
    }
    match file.data {
        Err(m) => Err(PackageError::Unreadable(m)),
        Ok(exe) => match check_program(exe.as_slice()) {
            Some(e) => Err(e),
            None => Ok(exe),
        },
    }
}

/// What is taken out of a package is the content of the part with the fixed name, and a program.
pub proof fn only_the_fixed_program_is_taken(bytes: Seq<u8>)
    requires
        program_in(bytes) is Ok,
    ensures
        ({
            let name = "AVT-Replenishment-Windows-x64/AVT-Replenishment.exe"@;
            let exe = program_in(bytes)->Ok_0;
            &&& part_names(bytes) matches Ok(names) && names.contains(name)
            &&& content_named(bytes, name, (LIMIT + 1) as nat) matches Ok((size, Ok(data))) && data
                == exe && size <= LIMIT
            &&& exe.len() <= LIMIT
            &&& exe[0] == 0x4d && exe[1] == 0x5a
        }),
{
    named_parts_are_found(
        part_names(bytes)->Ok_0,
        "AVT-Replenishment-Windows-x64/AVT-Replenishment.exe"@,
    );
}

/// A request: the host and the path, whether the token goes with it, whether bytes are asked for,
/// and how many are taken.
pub struct Request {
    pub host: String,
    pub path: String,
    pub with_token: bool,
    pub binary: bool,
    pub limit: u64,
}

/// A request, in contracts.
pub struct RequestView {
    pub host: Seq<char>,
    pub path: Seq<char>,
    pub with_token: bool,
    pub binary: bool,
    pub limit: nat,
}

impl View for Request {
    type V = RequestView;

    open spec fn view(&self) -> RequestView {
        RequestView {
            host: self.host@,
            path: self.path@,
            with_token: self.with_token,
            binary: self.binary,
            limit: self.limit as nat,
        }
    }
}

/// The request for the newest release.
pub open spec fn latest_request_view() -> RequestView {
    RequestView {
        host: "api.github.com"@,
        path: API_PATH@,
        with_token: true,
        binary: false,
        limit: 2 * 1024 * 1024,
    }
}

/// The request for the newest release.
pub fn latest_request() -> (r: Request)
    ensures
        r@ == latest_request_view(),
{
    Request {
        host: "api.github.com".to_string(),
        path: API_PATH.to_string(),
        with_token: true,
        binary: false,
        limit: 2 * 1024 * 1024,
    }
}

/// The request for the package of an update, or why it is not asked for.
pub open spec fn package_request_view(info: UpdateView) -> Result<RequestView, PackageErrorView> {
    if info.asset_id == 0 || info.asset_size > LIMIT {
        Err(PackageErrorView::Incomplete)
    } else if info.digest is None {
        Err(PackageErrorView::NoDigest)
    } else {
        Ok(
            RequestView {
                host: "api.github.com"@,
                path: "/repos/"@ + REPOSITORY@ + "/releases/assets/"@ + numeral(info.asset_id),
                with_token: true,
                binary: true,
                limit: LIMIT as nat,
            },
        )
    }
}

/// The request for the package of an update.
pub fn package_request(info: &UpdateInfo) -> (r: Result<Request, PackageError>)
    ensures
        package_request_view(info@) == (match r {
            Ok(q) => Ok::<RequestView, PackageErrorView>(q@),
            Err(e) => Err(e@),
        }),
{
    if info.asset_id == 0 || info.asset_size > LIMIT {
        return Err(PackageError::Incomplete);
    }
    if info.digest.is_none() {
        return Err(PackageError::NoDigest);
    }
    let mut path: String = "/repos/".to_string();
    path.append(REPOSITORY);
    path.append("/releases/assets/");
    let id: String = decimal(info.asset_id);
    path.append(id.as_str());
    Ok(
        Request {
            host: "api.github.com".to_string(),
            path,
            with_token: true,
            binary: true,
            limit: LIMIT,
        },
    )
}

/// The request that an answer leads on to, if it does: the token does not go with it.
pub open spec fn follow_view(status: nat, location: Option<Seq<char>>) -> Result<
    Option<RequestView>,
    PackageErrorView,
> {
    if status != 302 {
        Ok(None)
    } else {
        match location {
            None => Err(PackageErrorView::NoLocation),
            Some(url) => match redirect_path(url) {
                Err(e) => Err(e),
                Ok(path) => Ok(
                    Some(
                        RequestView {
                            host: "release-assets.githubusercontent.com"@,
                            path,
                            with_token: false,
                            binary: true,
                            limit: LIMIT as nat,
                        },
                    ),
                ),
            },
        }
    }
}

/// The request that an answer with the given status and location leads on to, if it does.
pub fn follow(status: u32, location: &Option<String>) -> (r: Result<Option<Request>, PackageError>)
    ensures
        follow_view(status as nat, optional(*location)) == (match r {
            Ok(Some(q)) => Ok::<Option<RequestView>, PackageErrorView>(Some(q@)),
            Ok(None) => Ok(None),
            Err(e) => Err(e@),
        }),
{
    if status != 302 {
        return Ok(None);
    }
    match location {
        None => Err(PackageError::NoLocation),
        Some(url) => match asset_redirect_path(url.as_str()) {
            Err(e) => Err(e),
            Ok(path) => Ok(
                Some(
                    Request {
                        host: "release-assets.githubusercontent.com".to_string(),
                        path,
                        with_token: false,
                        binary: true,
                        limit: LIMIT,
                    },
                ),
            ),
        },
    }
}

/// The token goes to the host of the interface only, whatever an answer says.
pub proof fn the_token_stays_with_the_interface(
    info: UpdateView,
    status: nat,
    location: Option<Seq<char>>,
    token: Seq<char>,
)
    ensures
        latest_request_view().host == "api.github.com"@,
        package_request_view(info) matches Ok(q) ==> q.host == "api.github.com"@,
        follow_view(status, location) matches Ok(Some(q)) ==> q.host
            == "release-assets.githubusercontent.com"@ && request_headers_view(q, token)
            == headers_view(q.binary, None),
{
}

/// Why a download is not the package of an update, if it is not.
pub open spec fn download_fault(info: UpdateView, status: nat, bytes: Seq<u8>) -> Option<
    PackageErrorView,
> {
    if status != 200 {
        Some(PackageErrorView::Status(status))
    } else {
        match info.digest {
            None => Some(PackageErrorView::NoDigest),
            Some(digest) => package_fault(bytes, info.asset_size, digest),
        }
    }
}

/// Checks a download against what is known of the update.
pub fn check_download(info: &UpdateInfo, status: u32, bytes: &[u8]) -> (r: Result<(), PackageError>)
    ensures
        download_fault(info@, status as nat, bytes@) == (match r {
            Ok(()) => None,
            Err(e) => Some(e@),
        }),
{
    if status != 200 {
        return Err(PackageError::Status(status));
    }
    match &info.digest {
        None => Err(PackageError::NoDigest),
        Some(digest) => verify_package(bytes, info.asset_size, digest.as_str()),
    }
}

/// A download that is taken has the size and the digest that the release states.
pub proof fn downloads_are_checked(info: UpdateView, status: nat, bytes: Seq<u8>)
    requires
        download_fault(info, status, bytes) is None,
    ensures
        status == 200,
        bytes.len() == info.asset_size,
        info.digest matches Some(digest) && begins(digest, "sha256:"@) && fingerprint(bytes)
            == lower(digest.skip(7)),
{
}

/// The headers of a request.
pub open spec fn headers_view(binary: bool, token: Option<Seq<char>>) -> Seq<char> {
    "Accept: "@ + (if binary {
        "application/octet-stream"@
    } else {
        "application/vnd.github+json"@
    }) + "\r\nX-GitHub-Api-Version: 2022-11-28\r\n"@ + (match token {
        Some(t) => "Authorization: Bearer "@ + t + "\r\n"@,
        None => Seq::empty(),
    })
}

/// The headers of a request, with a token or without one.
pub fn headers(binary: bool, token: Option<&str>) -> (r: Result<String, UpdateError>)
    ensures
        match token {
            Some(t) => if valid_token(t@) {
                r matches Ok(s) && s@ == headers_view(binary, Some(t@))
            } else {
                r matches Err(e) && e@ == UpdateErrorView::Token
            },
            None => r matches Ok(s) && s@ == headers_view(binary, None),
        },
{
    let mut s: String = "Accept: ".to_string();
    if binary {
        s.append("application/octet-stream");
    } else {
        s.append("application/vnd.github+json");
    }
    s.append("\r\nX-GitHub-Api-Version: 2022-11-28\r\n");
    match token {
        Some(t) => {
            match validate_token(t) {
                Ok(()) => {},
                Err(e) => {
                    return Err(e);
                },
            }
            s.append("Authorization: Bearer ");
            s.append(t);
            s.append("\r\n");
            assert(s@ =~= headers_view(binary, Some(t@)));
        },
        None => {
            assert(s@ =~= headers_view(binary, None));
        },
    }
    Ok(s)
}

/// The headers that go with a request: with the token where the request says so, and without it
/// elsewhere.
pub open spec fn request_headers_view(q: RequestView, token: Seq<char>) -> Seq<char> {
    headers_view(
        q.binary,
        if q.with_token {
            Some(token)
        } else {
            None
        },
    )
}

/// The headers that go with a request, unless the token that should go with it is none.
pub fn request_headers(q: &Request, token: &str) -> (r: Result<String, UpdateError>)
    ensures
        if q@.with_token && !valid_token(token@) {
            r matches Err(e) && e@ == UpdateErrorView::Token
        } else {
            r matches Ok(s) && s@ == request_headers_view(q@, token@)
        },
{
    if q.with_token {
        headers(q.binary, Some(token))
    } else {
        headers(q.binary, None)
    }
}

/// What is read of an answer.
#[derive(Clone, Copy, Debug, PartialEq, Eq, Structural)]
pub enum Reading {
    /// Where it leads on to.
    Location,
    /// Its bytes.
    Body,
    /// Nothing.
    Nothing,
}

/// What is read of an answer with the given status.
pub fn reading(status: u32) -> (r: Reading)
    ensures
        r == (if status == 302 {
            Reading::Location
        } else if status == 200 {
            Reading::Body
        } else {
            Reading::Nothing
        }),
{
    if status == 302 {
        Reading::Location
    } else if status == 200 {
        Reading::Body
    } else {
        Reading::Nothing
    }
}

/// How long bytes are taken, in nanoseconds: three minutes.
pub const PATIENCE: u128 = 180_000_000_000;

/// Whether more bytes are taken once so many nanoseconds have passed.
pub fn may_go_on(elapsed: u128) -> (r: bool)
    ensures
        r == (elapsed <= PATIENCE),
{
    elapsed <= PATIENCE
}

/// Whether `more` bytes can be taken where there are `have` and no more than `limit` are taken.
pub fn within(have: usize, more: usize, limit: usize) -> (r: bool)
    ensures
        r == (have + more <= limit),
{
    have <= limit && more <= limit - have
}

/// A character from the space on that is no control character and no backslash.
pub open spec fn address_char(c: char) -> bool {
    c as int >= 32 && !(127 <= c as int <= 159) && c as int != 92
}

proof fn address_chars_are_safe(c: char)
    ensures
        unsafe_char(c) <==> !address_char(c),
{
    assert('\\' as int == 92);
    let u = c as u32;
    assert(u as int == c as int);
}

/// Which addresses are followed: those of the release assets with a path, without control characters and
/// backslashes. Other hosts are foreign.
pub proof fn redirects_lead_to_release_assets(path: Seq<char>, url: Seq<char>)
    requires
        url == "https://release-assets.githubusercontent.com/"@ + path,
    ensures
        ({
            let fine = forall|i: int| 0 <= i < path.len() ==> address_char(#[trigger] path[i]);
            &&& path.len() > 0 && fine ==> redirect_path(url) == Ok::<Seq<char>, PackageErrorView>(
                seq!['/'] + path,
            )
            &&& path.len() == 0 || !fine ==> redirect_path(url) == Err::<
                Seq<char>,
                PackageErrorView,
            >(PackageErrorView::Address)
        }),
{
    let host = "https://release-assets.githubusercontent.com/"@;
    reveal_strlit("https://release-assets.githubusercontent.com/");
    let n = host.len() as int;
    assert(url.subrange(0, n) =~= host);
    assert(url.skip(n - 1) =~= seq!['/'] + path);
    assert forall|i: int| 0 <= i < n implies !unsafe_char(#[trigger] url[i]) by {
        assert(url[i] == host[i]);
    }
    let fine = forall|i: int| 0 <= i < path.len() ==> address_char(#[trigger] path[i]);
    if fine {
        assert forall|i: int| 0 <= i < url.len() implies !unsafe_char(#[trigger] url[i]) by {
            if i >= n {
                assert(url[i] == path[i - n]);
                address_chars_are_safe(path[i - n]);
            }
        }
    } else {
        let i = choose|i: int| 0 <= i < path.len() && !address_char(#[trigger] path[i]);
        assert(url[i + n] == path[i]);
        address_chars_are_safe(path[i]);
        assert(unsafe_char(url[i + n]));
    }
}

/// An address that does not start with that of the release assets is foreign.
pub proof fn other_hosts_are_foreign(url: Seq<char>)
    requires
        !begins(url, "https://release-assets.githubusercontent.com/"@),
    ensures
        redirect_path(url) == Err::<Seq<char>, PackageErrorView>(PackageErrorView::Foreign),
{
}

/// A package is the right one where it has the size and where its digest is `sha256:` and the
/// fingerprint of the bytes, in capital or in small letters, and only there.
pub proof fn packages_go_by_size_and_digest(bytes: Seq<u8>, size: nat, digest: Seq<char>)
    ensures
        package_fault(bytes, size, digest) is None ==> bytes.len() == size && digest.len() == 71
            && digest.subrange(0, 7) == seq!['s', 'h', 'a', '2', '5', '6', ':'] && lower(
            digest.subrange(7, 71),
        ) == fingerprint(bytes),
        package_fault(bytes, size, digest) == Some(PackageErrorView::Algorithm) <==> !(digest.len()
            >= 7 && digest.subrange(0, 7) == seq!['s', 'h', 'a', '2', '5', '6', ':']),
        package_fault(bytes, size, digest) matches Some(e) ==> e == PackageErrorView::Algorithm || e
            == PackageErrorView::Mismatch,
{
    reveal_strlit("sha256:");
    assert("sha256:"@ =~= seq!['s', 'h', 'a', '2', '5', '6', ':']);
    if digest.len() >= 7 {
        assert(digest.skip(7) =~= digest.subrange(7, digest.len() as int));
    }
}

/// The package with the stated size and fingerprint is taken.
pub proof fn the_right_package_is_taken(bytes: Seq<u8>, expected: Seq<char>)
    requires
        lower(expected) == fingerprint(bytes),
        sha256(bytes).len() == 32,
    ensures
        package_fault(
            bytes,
            bytes.len(),
            seq!['s', 'h', 'a', '2', '5', '6', ':'] + expected,
        ) is None,
{
    reveal_strlit("sha256:");
    let digest = seq!['s', 'h', 'a', '2', '5', '6', ':'] + expected;
    assert("sha256:"@ =~= seq!['s', 'h', 'a', '2', '5', '6', ':']);
    assert(digest.subrange(0, 7) =~= "sha256:"@);
    assert(digest.skip(7) =~= expected);
    hexadecimal_length(sha256(bytes));
    let h = fingerprint(bytes);
    assert(h.len() == 64);
    assert(expected.len() == lower(expected).len());
    assert forall|i: int| 0 <= i < expected.len() implies hex_char(#[trigger] expected[i]) by {
        let b = sha256(bytes);
        bytes_are_written_in_hexadecimal(b, i / 2);
        assert(h[i] == lower(expected)[i]);
        assert(h[2 * (i / 2)] == h[i] || h[2 * (i / 2) + 1] == h[i]) by {
            assert(i == 2 * (i / 2) || i == 2 * (i / 2) + 1);
        }
        let u = h[i] as int;
        assert(48 <= u <= 57 || 97 <= u <= 102);
        assert(lower_char(expected[i]) == h[i]);
    }
}

/// Which bytes are a program for 64-bit Windows: 64 megabytes at most, that start with the two letters
/// of one, and at the place that the four bytes from the sixtieth on tell have its mark and its machine.
pub proof fn programs_have_two_headers(exe: Seq<u8>)
    ensures
        program_fault(exe) is None <==> {
            let at = exe[60] + 256 * exe[61] + 65536 * exe[62] + 16777216 * exe[63];
            &&& 64 <= exe.len() <= 67108864
            &&& exe[0] == 77 && exe[1] == 90
            &&& at + 6 <= exe.len()
            &&& exe[at] == 80 && exe[at + 1] == 69 && exe[at + 2] == 0 && exe[at + 3] == 0
            &&& exe[at + 4] == 100 && exe[at + 5] == 134
        },
        program_fault(exe) matches Some(e) ==> e == PackageErrorView::Format || e
            == PackageErrorView::NoHeader || e == PackageErrorView::Machine,
        program_fault(exe) == Some(PackageErrorView::Format) <==> exe.len() > 67108864 || exe.len()
            < 2 || exe[0] != 77 || exe[1] != 90,
        program_fault(exe) == Some(PackageErrorView::NoHeader) ==> exe.len() < 64,
{
    if exe.len() >= 64 {
        let four = exe.subrange(60, 64);
        assert(four[0] == exe[60] && four[1] == exe[61] && four[2] == exe[62] && four[3] == exe[63]);
        let at = little_endian(four);
        if at + 6 <= exe.len() {
            let six = exe.subrange(at, at + 6);
            assert(six[0] == exe[at] && six[1] == exe[at + 1] && six[2] == exe[at + 2] && six[3]
                == exe[at + 3] && six[4] == exe[at + 4] && six[5] == exe[at + 5]);
            let mark = seq![0x50u8, 0x45u8, 0u8, 0u8, 0x64u8, 0x86u8];
            if exe[at] == 80 && exe[at + 1] == 69 && exe[at + 2] == 0 && exe[at + 3] == 0 && exe[at
                + 4] == 100 && exe[at + 5] == 134 {
                assert(six =~= mark);
            } else {
                assert(mark[0] == 80 && mark[1] == 69 && mark[2] == 0 && mark[3] == 0 && mark[4]
                    == 100 && mark[5] == 134);
            }
        }
    }
}

/// A package holds the program where it is an archive with a part of the fixed name, of 64 megabytes at
/// most, that can be read and is one; why it is not taken is told by what fails first.
pub proof fn programs_are_taken_out(bytes: Seq<u8>)
    ensures
        ({
            let name = "AVT-Replenishment-Windows-x64/AVT-Replenishment.exe"@;
            let content = content_named(bytes, name, 67108865);
            match part_names(bytes) {
                Err(m) => program_in(bytes) == Err::<Seq<u8>, PackageErrorView>(
                    PackageErrorView::NotZip(m),
                ),
                Ok(names) => {
                    &&& !names.contains(name) ==> program_in(bytes) == Err::<
                        Seq<u8>,
                        PackageErrorView,
                    >(PackageErrorView::NoProgram)
                    &&& names.contains(name) ==> match content {
                        Err(m) => program_in(bytes) == Err::<Seq<u8>, PackageErrorView>(
                            PackageErrorView::Unreadable(m),
                        ),
                        Ok((size, data)) => {
                            &&& size > 67108864 ==> program_in(bytes) == Err::<
                                Seq<u8>,
                                PackageErrorView,
                            >(PackageErrorView::TooLarge)
                            &&& size <= 67108864 && data is Err ==> program_in(bytes) == Err::<
                                Seq<u8>,
                                PackageErrorView,
                            >(PackageErrorView::Unreadable(data->Err_0))
                            &&& size <= 67108864 && data is Ok && program_fault(data->Ok_0) is None
                                ==> program_in(bytes) == Ok::<Seq<u8>, PackageErrorView>(data->Ok_0)
                            &&& size <= 67108864 && data is Ok && program_fault(data->Ok_0) is Some
                                ==> program_in(bytes) == Err::<Seq<u8>, PackageErrorView>(
                                program_fault(data->Ok_0)->Some_0,
                            )
                        },
                    }
                },
            }
        }),
{
    if let Ok(names) = part_names(bytes) {
        named_parts_are_found(names, "AVT-Replenishment-Windows-x64/AVT-Replenishment.exe"@);
    }
}

/// What is asked for: the newest release, the package of an update by its number, and what an answer of
/// the status 302 leads on to. The token goes with the first two.
pub proof fn requests_are_made(info: UpdateView, status: nat, location: Option<Seq<char>>)
    ensures
        latest_request_view().path == "/repos/Perfect9s/AVT-Replenishment/releases/latest"@,
        latest_request_view().with_token,
        !latest_request_view().binary,
        latest_request_view().limit == 2097152,
        info.asset_id == 0 || info.asset_size > 67108864 ==> package_request_view(info) == Err::<
            RequestView,
            PackageErrorView,
        >(PackageErrorView::Incomplete),
        info.asset_id > 0 && info.asset_size <= 67108864 && info.digest is None
            ==> package_request_view(info) == Err::<RequestView, PackageErrorView>(
            PackageErrorView::NoDigest,
        ),
        info.asset_id > 0 && info.asset_size <= 67108864 && info.digest is Some ==> (
        package_request_view(info) matches Ok(q) && q.with_token && q.binary && q.limit == 67108864
            && q.path == "/repos/"@ + "Perfect9s/AVT-Replenishment"@ + "/releases/assets/"@
            + numeral(info.asset_id)),
        status != 302 ==> follow_view(status, location) == Ok::<
            Option<RequestView>,
            PackageErrorView,
        >(None),
        status == 302 && location is None ==> follow_view(status, location) == Err::<
            Option<RequestView>,
            PackageErrorView,
        >(PackageErrorView::NoLocation),
        status == 302 && location is Some && redirect_path(location->Some_0) is Err ==> follow_view(
            status,
            location,
        ) == Err::<Option<RequestView>, PackageErrorView>(redirect_path(location->Some_0)->Err_0),
        status == 302 && location is Some && redirect_path(location->Some_0) is Ok ==> (follow_view(
            status,
            location,
        ) matches Ok(Some(q)) && q.path == redirect_path(location->Some_0)->Ok_0 && !q.with_token
            && q.binary && q.limit == 67108864),
{
}

/// A download is refused by its status, for want of a digest, or because of what it holds.
pub proof fn downloads_are_refused(info: UpdateView, status: nat, bytes: Seq<u8>)
    ensures
        status != 200 ==> download_fault(info, status, bytes) == Some(
            PackageErrorView::Status(status),
        ),
        status == 200 && info.digest is None ==> download_fault(info, status, bytes) == Some(
            PackageErrorView::NoDigest,
        ),
        status == 200 && info.digest is Some ==> download_fault(info, status, bytes)
            == package_fault(bytes, info.asset_size, info.digest->Some_0),
{
}

/// The headers of a request ask for bytes or for the description of a release, and carry the token on a
/// line of its own where it goes with the request.
pub proof fn headers_are_lines(q: RequestView, token: Seq<char>)
    ensures
        ({
            let lines = request_headers_view(q, token);
            let version = "\r\nX-GitHub-Api-Version: 2022-11-28\r\n"@;
            let accept = if q.binary {
                "Accept: "@ + "application/octet-stream"@
            } else {
                "Accept: "@ + "application/vnd.github+json"@
            };
            &&& q.with_token ==> lines == accept + version + ("Authorization: Bearer "@ + token
                + "\r\n"@)
            &&& !q.with_token ==> lines == accept + version
        }),
{
    assert(headers_view(q.binary, None) =~= "Accept: "@ + (if q.binary {
        "application/octet-stream"@
    } else {
        "application/vnd.github+json"@
    }) + "\r\nX-GitHub-Api-Version: 2022-11-28\r\n"@);
}

/// What is read of an answer goes by its status, bytes are taken for three minutes at most, and no more of
/// them than the limit.
pub proof fn answers_are_bounded(
    status: u32,
    elapsed: u128,
    have: usize,
    more: usize,
    limit: usize,
)
    ensures
        forall|r: Reading| #[trigger]
            call_ensures(reading, (status,), r) ==> (r == Reading::Location <==> status == 302) && (r
                == Reading::Body <==> status == 200),
        forall|r: bool| #[trigger]
            call_ensures(may_go_on, (elapsed,), r) ==> (r <==> elapsed <= 180 * 1_000_000_000),
        forall|r: bool| #[trigger]
            call_ensures(within, (have, more, limit), r) ==> (r <==> have + more <= limit),
{
}

/// What is said of a package that is refused: the words are fixed, and what they are
/// about stands in them as it is.
pub proof fn faults_of_packages_are_worded(error: PackageErrorView)
    ensures
        match error {
            PackageErrorView::Incomplete => error.words() == "更新包信息不完整或过大。"@,
            PackageErrorView::NoDigest => error.words() == "更新包缺少 SHA-256 校验值，已停止更新"@,
            PackageErrorView::NoLocation => error.words() == "缺少下载地址"@,
            PackageErrorView::Foreign => error.words() == "更新包下载地址不属于 GitHub，已停止"@,
            PackageErrorView::Address => error.words() == "更新包下载地址无效"@,
            PackageErrorView::Status(n) => stands_between(
                error.words(),
                "更新包下载失败（HTTP "@,
                numeral(n),
                "）。请确认 Token 的仓库只读权限。"@,
            ),
            PackageErrorView::Algorithm => error.words() == "更新包校验算法不受支持"@,
            PackageErrorView::Mismatch => error.words() == "更新包大小或 SHA-256 校验失败，原程序未修改。"@,
            PackageErrorView::NotZip(m) => stands_between(
                error.words(),
                "更新包不是有效 ZIP: "@,
                m,
                Seq::<char>::empty(),
            ),
            PackageErrorView::NoProgram => error.words() == "更新包必须包含唯一的应用程序。"@,
            PackageErrorView::Unreadable(m) => error.words() == m,
            PackageErrorView::TooLarge => error.words() == "更新程序超过大小限制。"@,
            PackageErrorView::Format => error.words() == "更新程序格式无效。"@,
            PackageErrorView::NoHeader => error.words() == "更新程序缺少 PE 标头"@,
            PackageErrorView::Machine => error.words() == "更新程序不是 Windows x64 应用。"@,
        },
{
}

} // verus!
