//! New versions of the program: which release counts as one, and what its package must be.

use crate::text::{
    begins, chars, decimal, digit, numeral, part, same, stands_between, text, trim, trimmed,
};
use crate::xml::optional;
use vstd::prelude::*;
use vstd::string::StringExecFns;

verus! {

/// The version of the program.
pub const VERSION: &'static str = "1.2.0";

/// The repository of the program.
pub const REPOSITORY: &'static str = "Perfect9s/AVT-Replenishment";

/// The page of the releases of the program.
pub const RELEASES_PAGE: &'static str = "https://github.com/Perfect9s/AVT-Replenishment/releases";

/// Where the newest release is asked for.
pub const API_PATH: &'static str = "/repos/Perfect9s/AVT-Replenishment/releases/latest";

/// A file of a release.
pub struct Asset {
    pub id: u64,
    pub digest: Option<String>,
    pub name: String,
    pub state: String,
    pub size: u64,
}

/// A release.
pub struct Release {
    pub tag_name: String,
    pub draft: bool,
    pub prerelease: bool,
    pub assets: Vec<Asset>,
}

/// A file of a release, in contracts.
pub struct AssetView {
    pub id: nat,
    pub digest: Option<Seq<char>>,
    pub name: Seq<char>,
    pub state: Seq<char>,
    pub size: nat,
}

/// A release, in contracts.
pub struct ReleaseView {
    pub tag_name: Seq<char>,
    pub draft: bool,
    pub prerelease: bool,
    pub assets: Seq<AssetView>,
}

impl View for Asset {
    type V = AssetView;

    open spec fn view(&self) -> AssetView {
        AssetView {
            id: self.id as nat,
            digest: optional(self.digest),
            name: self.name@,
            state: self.state@,
            size: self.size as nat,
        }
    }
}

impl View for Release {
    type V = ReleaseView;

    open spec fn view(&self) -> ReleaseView {
        ReleaseView {
            tag_name: self.tag_name@,
            draft: self.draft,
            prerelease: self.prerelease,
            assets: Seq::new(self.assets@.len(), |i: int| self.assets@[i]@),
        }
    }
}

/// What there is to know of the newest release.
#[derive(Clone, Debug)]
pub struct UpdateInfo {
    pub asset_id: u64,
    pub asset_size: u64,
    pub digest: Option<String>,
    pub latest: String,
    pub newer: bool,
    pub release_url: String,
}

/// What there is to know of the newest release, in contracts.
pub struct UpdateView {
    pub asset_id: nat,
    pub asset_size: nat,
    pub digest: Option<Seq<char>>,
    pub latest: Seq<char>,
    pub newer: bool,
    pub release_url: Seq<char>,
}

impl View for UpdateInfo {
    type V = UpdateView;

    open spec fn view(&self) -> UpdateView {
        UpdateView {
            asset_id: self.asset_id as nat,
            asset_size: self.asset_size as nat,
            digest: optional(self.digest),
            latest: self.latest@,
            newer: self.newer,
            release_url: self.release_url@,
        }
    }
}

/// Why there is no update.
pub enum UpdateError {
    /// The token is none.
    Token,
    /// The authorisation is not valid.
    Unauthorized,
    /// The request was refused, or there were too many.
    Refused,
    /// There is no release, or it may not be read.
    NotFound,
    /// The address has moved.
    Redirected,
    /// The request failed with the given status.
    Status(u32),
    /// The answer is too long.
    TooLong,
    /// The answer is no release, with the message of the error.
    Format(String),
    /// The release is not an official one.
    Unofficial,
    /// The version of the release is none, with the message of the error.
    Version(String),
    /// The version of the release is not that of an official one.
    Prerelease,
    /// The version of the program is none, with the message of the error.
    Current(String),
    /// The package is not ready.
    NotReady,
}

/// Why there is no update, in contracts.
pub enum UpdateErrorView {
    Token,
    Unauthorized,
    Refused,
    NotFound,
    Redirected,
    Status(nat),
    TooLong,
    Format(Seq<char>),
    Unofficial,
    Version(Seq<char>),
    Prerelease,
    Current(Seq<char>),
    NotReady,
}

impl View for UpdateError {
    type V = UpdateErrorView;

    open spec fn view(&self) -> UpdateErrorView {
        match self {
            UpdateError::Token => UpdateErrorView::Token,
            UpdateError::Unauthorized => UpdateErrorView::Unauthorized,
            UpdateError::Refused => UpdateErrorView::Refused,
            UpdateError::NotFound => UpdateErrorView::NotFound,
            UpdateError::Redirected => UpdateErrorView::Redirected,
            UpdateError::Status(n) => UpdateErrorView::Status(*n as nat),
            UpdateError::TooLong => UpdateErrorView::TooLong,
            UpdateError::Format(m) => UpdateErrorView::Format(m@),
            UpdateError::Unofficial => UpdateErrorView::Unofficial,
            UpdateError::Version(m) => UpdateErrorView::Version(m@),
            UpdateError::Prerelease => UpdateErrorView::Prerelease,
            UpdateError::Current(m) => UpdateErrorView::Current(m@),
            UpdateError::NotReady => UpdateErrorView::NotReady,
        }
    }
}

impl UpdateErrorView {
    /// The error in words.
    pub open spec fn words(self) -> Seq<char> {
        match self {
            UpdateErrorView::Token => "请填写有效的 GitHub Token；不要填写 GitHub 登录密码。"@,
            UpdateErrorView::Unauthorized => "GitHub 授权无效或已过期，请重新设置更新授权。"@,
            UpdateErrorView::Refused =>
                "GitHub 拒绝请求或已限流，请确认该仓库的 Contents 只读权限，稍后重试。"@,
            UpdateErrorView::NotFound =>
                "无法读取私有仓库的最新版本：可能尚未发布正式版本，或 Token 未获该仓库访问权限。"@,
            UpdateErrorView::Redirected =>
                "更新地址发生重定向。为避免将凭据发送到其他地址，本次检查已停止。"@,
            UpdateErrorView::Status(n) => "更新检查失败（HTTP "@ + numeral(n) + "），请稍后重试。"@,
            UpdateErrorView::TooLong => "更新响应过大，已停止处理。"@,
            UpdateErrorView::Format(m) => "GitHub 版本信息格式无效: "@ + m,
            UpdateErrorView::Unofficial => "更新源返回了非正式版本，本次不推荐更新。"@,
            UpdateErrorView::Version(m) => "版本号格式无效: "@ + m,
            UpdateErrorView::Prerelease => "仅支持正式版本号。"@,
            UpdateErrorView::Current(m) => m,
            UpdateErrorView::NotReady => "最新 Release 的 Windows 安装包尚未就绪，请稍后重试。"@,
        }
    }
}

/// `a` and then `b`.
fn join(a: &str, b: &str) -> (r: String)
    ensures
        r@ == a@ + b@,
{
    let mut r: String = a.to_string();
    r.append(b);
    r
}

impl UpdateError {
    /// The error in words.
    pub fn message(&self) -> (r: String)
        ensures
            r@ == self@.words(),
    {
        match self {
            UpdateError::Token => "请填写有效的 GitHub Token；不要填写 GitHub 登录密码。".to_string(),
            UpdateError::Unauthorized => "GitHub 授权无效或已过期，请重新设置更新授权。".to_string(),
            UpdateError::Refused => {
                "GitHub 拒绝请求或已限流，请确认该仓库的 Contents 只读权限，稍后重试。".to_string()
            },
            UpdateError::NotFound => {
                "无法读取私有仓库的最新版本：可能尚未发布正式版本，或 Token 未获该仓库访问权限。".to_string()
            },
            UpdateError::Redirected => {
                "更新地址发生重定向。为避免将凭据发送到其他地址，本次检查已停止。".to_string()
            },
            UpdateError::Status(n) => {
                let mut r: String = "更新检查失败（HTTP ".to_string();
                let number: String = decimal(*n as u64);
                r.append(number.as_str());
                r.append("），请稍后重试。");
                r
            },
            UpdateError::TooLong => "更新响应过大，已停止处理。".to_string(),
            UpdateError::Format(m) => join("GitHub 版本信息格式无效: ", m.as_str()),
            UpdateError::Unofficial => "更新源返回了非正式版本，本次不推荐更新。".to_string(),
            UpdateError::Version(m) => join("版本号格式无效: ", m.as_str()),
            UpdateError::Prerelease => "仅支持正式版本号。".to_string(),
            UpdateError::Current(m) => m.clone(),
            UpdateError::NotReady => {
                "最新 Release 的 Windows 安装包尚未就绪，请稍后重试。".to_string()
            },
        }
    }
}

/// A character of a token.
pub open spec fn token_char(c: char) -> bool {
    digit(c) || ('A' <= c && c <= 'Z') || ('a' <= c && c <= 'z') || c == '_'
}

/// Whether a text is a token: up to 1024 ASCII letters, digits and underscores.
pub open spec fn valid_token(s: Seq<char>) -> bool {
    0 < s.len() <= 1024 && forall|i: int| 0 <= i < s.len() ==> token_char(#[trigger] s[i])
}

/// Whether a text is a token.
pub fn validate_token(token: &str) -> (r: Result<(), UpdateError>)
    ensures
        match r {
            Ok(()) => valid_token(token@),
            Err(e) => !valid_token(token@) && e@ == UpdateErrorView::Token,
        },
{
    let x: Vec<char> = chars(token);
    if x.len() == 0 || x.len() > 1024 {
        return Err(UpdateError::Token);
    }
    let mut i: usize = 0;
    while i < x.len()
        invariant
            x@ == token@,
            i <= x.len(),
            forall|j: int| 0 <= j < i ==> token_char(#[trigger] x@[j]),
        decreases x.len() - i,
    {
        let c: char = x[i];
        if !(('0' <= c && c <= '9') || ('A' <= c && c <= 'Z') || ('a' <= c && c <= 'z') || c
            == '_') {
            assert(!token_char(token@[i as int]));
            return Err(UpdateError::Token);
        }
        i = i + 1;
    }
    Ok(())
}

/// A token cannot break out of the line of the header that it is sent in.
pub proof fn tokens_cannot_break_lines(token: Seq<char>, i: int)
    requires
        valid_token(token),
        0 <= i < token.len(),
    ensures
        token[i] != '\r',
        token[i] != '\n',
        token[i] != ' ',
        token[i] != ':',
        token[i] != '\0',
{
}

/// A token as it was typed in: white space around it does not belong to it.
pub fn clean_token(typed: &str) -> (r: Result<String, UpdateError>)
    ensures
        match r {
            Ok(s) => s@ == trimmed(typed@) && valid_token(s@),
            Err(e) => !valid_token(trimmed(typed@)) && e@ == UpdateErrorView::Token,
        },
{
    let t: Vec<char> = trim(typed);
    let s: String = text(&t);
    match validate_token(s.as_str()) {
        Ok(()) => Ok(s),
        Err(e) => Err(e),
    }
}

/// A version.
pub struct Version {
    pub major: u64,
    pub minor: u64,
    pub patch: u64,
    pub pre: String,
    pub build: String,
}

/// A version, in contracts.
pub struct VersionView {
    pub major: nat,
    pub minor: nat,
    pub patch: nat,
    pub pre: Seq<char>,
    pub build: Seq<char>,
}

impl View for Version {
    type V = VersionView;

    open spec fn view(&self) -> VersionView {
        VersionView {
            major: self.major as nat,
            minor: self.minor as nat,
            patch: self.patch as nat,
            pre: self.pre@,
            build: self.build@,
        }
    }
}

/// The version that a text is read as, or the message of the error.
pub uninterp spec fn version_read(s: Seq<char>) -> Result<VersionView, Seq<char>>;

/// An official version in words.
pub open spec fn version_text(v: VersionView) -> Seq<char> {
    numeral(v.major) + "."@ + numeral(v.minor) + "."@ + numeral(v.patch)
}

/// Whether a version is that of an official release: three numbers, which fit 64 bits, and no more.
pub open spec fn official(v: VersionView) -> bool {
    &&& v.major <= u64::MAX
    &&& v.minor <= u64::MAX
    &&& v.patch <= u64::MAX
    &&& v.pre.len() == 0
    &&& v.build.len() == 0
}

/// The version that was read, in contracts.
pub open spec fn version_view(r: Result<Version, String>) -> Result<VersionView, Seq<char>> {
    match r {
        Ok(v) => Ok(v@),
        Err(m) => Err(m@),
    }
}

/// `semver::Version::parse`: the version is a function of the text, and an official version is read
/// from its three numbers with points between them and from no other text. What other versions are
/// read from is not stated.
#[verifier::external_body]
fn read_version(s: &str) -> (r: Result<Version, String>)
    ensures
        version_view(r) == version_read(s@),
        forall|v: VersionView|
            official(v) ==> (version_view(r) == Ok::<VersionView, Seq<char>>(v) <==> s@
                == #[trigger] version_text(v)),
{
    let v = semver::Version::parse(s).map_err(|e| e.to_string())?;
    let (pre, build) = (v.pre.to_string(), v.build.to_string());
    Ok(Version { major: v.major, minor: v.minor, patch: v.patch, pre, build })
}

/// The tag of a release without the letter that it may start with.
pub open spec fn bare_tag(tag: Seq<char>) -> Seq<char> {
    if tag.len() > 0 && tag[0] == 'v' {
        tag.drop_first()
    } else {
        tag
    }
}

/// Whether the official version `v` is newer than `w`: its numbers are greater, or they are the
/// same and `w` came before the official version.
pub open spec fn newer_than(v: VersionView, w: VersionView) -> bool {
    if v.major != w.major {
        v.major > w.major
    } else if v.minor != w.minor {
        v.minor > w.minor
    } else if v.patch != w.patch {
        v.patch > w.patch
    } else {
        w.pre.len() > 0
    }
}

/// The name of the package of a version.
pub open spec fn package_name(v: VersionView) -> Seq<char> {
    "AVT-Replenishment-Windows-x64-v"@ + version_text(v) + ".zip"@
}

/// Whether one of the files is the package with the given name, and ready.
pub open spec fn is_ready(assets: Seq<AssetView>, name: Seq<char>) -> bool {
    exists|i: int|
        0 <= i < assets.len() && (#[trigger] assets[i]).name == name && assets[i].state
            == "uploaded"@ && assets[i].size > 0
}

/// The place of the first file with the given name.
pub open spec fn first_asset(assets: Seq<AssetView>, name: Seq<char>) -> Option<int>
    decreases assets.len(),
{
    if assets.len() == 0 {
        None
    } else {
        match first_asset(assets.drop_last(), name) {
            Some(i) => Some(i),
            None => if assets.last().name == name {
                Some(assets.len() - 1)
            } else {
                None
            },
        }
    }
}

/// What there is to know of a release with the given version, for a program with the given one.
pub open spec fn update_of(release: ReleaseView, v: VersionView, current: VersionView) -> Result<
    UpdateView,
    UpdateErrorView,
> {
    if !is_ready(release.assets, package_name(v)) {
        Err(UpdateErrorView::NotReady)
    } else {
        let asset = release.assets[first_asset(release.assets, package_name(v))->Some_0];
        Ok(
            UpdateView {
                asset_id: asset.id,
                asset_size: asset.size,
                digest: asset.digest,
                latest: version_text(v),
                newer: newer_than(v, current),
                release_url: RELEASES_PAGE@ + "/tag/"@ + release.tag_name,
            },
        )
    }
}

/// Why an answer with the given status and length is not looked at, if it is not.
pub open spec fn answer_fault(status: nat, length: nat) -> Option<UpdateErrorView> {
    if status == 200 {
        if length > 2 * 1024 * 1024 {
            Some(UpdateErrorView::TooLong)
        } else {
            None
        }
    } else if status == 401 {
        Some(UpdateErrorView::Unauthorized)
    } else if status == 403 || status == 429 {
        Some(UpdateErrorView::Refused)
    } else if status == 404 {
        Some(UpdateErrorView::NotFound)
    } else if 300 <= status <= 399 {
        Some(UpdateErrorView::Redirected)
    } else {
        Some(UpdateErrorView::Status(status))
    }
}

/// What there is to know of the newest release, from an answer with the given status and length
/// that was decoded, for a program with the given version.
pub open spec fn release_read(
    status: nat,
    length: nat,
    decoded: Result<ReleaseView, Seq<char>>,
    current: Seq<char>,
) -> Result<UpdateView, UpdateErrorView> {
    match answer_fault(status, length) {
        Some(e) => Err(e),
        None => match decoded {
            Err(m) => Err(UpdateErrorView::Format(m)),
            Ok(release) => if release.draft || release.prerelease {
                Err(UpdateErrorView::Unofficial)
            } else {
                match version_read(bare_tag(release.tag_name)) {
                    Err(m) => Err(UpdateErrorView::Version(m)),
                    Ok(v) => if v.pre.len() > 0 || v.build.len() > 0 {
                        Err(UpdateErrorView::Prerelease)
                    } else {
                        match version_read(current) {
                            Err(m) => Err(UpdateErrorView::Current(m)),
                            Ok(c) => update_of(release, v, c),
                        }
                    },
                }
            },
        },
    }
}

/// Why an answer with the given status and length is not looked at, if it is not.
pub fn check_answer(status: u32, length: usize) -> (r: Option<UpdateError>)
    ensures
        answer_fault(status as nat, length as nat) == (match r {
            Some(e) => Some(e@),
            None => None,
        }),
{
    if status == 200 {
        if length > 2 * 1024 * 1024 {
            Some(UpdateError::TooLong)
        } else {
            None
        }
    } else if status == 401 {
        Some(UpdateError::Unauthorized)
    } else if status == 403 || status == 429 {
        Some(UpdateError::Refused)
    } else if status == 404 {
        Some(UpdateError::NotFound)
    } else if 300 <= status && status <= 399 {
        Some(UpdateError::Redirected)
    } else {
        Some(UpdateError::Status(status))
    }
}

/// The decoded answer, in contracts.
pub open spec fn decoded_view(decoded: Result<Release, String>) -> Result<ReleaseView, Seq<char>> {
    match decoded {
        Ok(r) => Ok(r@),
        Err(m) => Err(m@),
    }
}

/// Whether one of the files is the package with the given name, and ready.
fn find_ready(assets: &Vec<Asset>, name: &str) -> (r: bool)
    ensures
        r == is_ready(Seq::new(assets@.len(), |i: int| assets@[i]@), name@),
{
    let ghost v = Seq::new(assets@.len(), |i: int| assets@[i]@);
    let mut i: usize = 0;
    while i < assets.len()
        invariant
            v == Seq::new(assets@.len(), |i: int| assets@[i]@),
            i <= assets.len(),
            forall|j: int|
                0 <= j < i ==> !((#[trigger] v[j]).name == name@ && v[j].state == "uploaded"@
                    && v[j].size > 0),
        decreases assets.len() - i,
    {
        let a: &Asset = &assets[i];
        assert(v[i as int] == a@);
        if same(a.name.as_str(), name) && same(a.state.as_str(), "uploaded") && a.size > 0 {
            return true;
        }
        i = i + 1;
    }
    false
}

/// The place of the first file with the given name.
fn find_asset(assets: &Vec<Asset>, name: &str) -> (r: Option<usize>)
    ensures
        first_asset(Seq::new(assets@.len(), |i: int| assets@[i]@), name@) == (match r {
            Some(i) => Some(i as int),
            None => None,
        }),
        r matches Some(i) ==> i < assets.len(),
{
    let ghost v = Seq::new(assets@.len(), |i: int| assets@[i]@);
    let mut i: usize = 0;
    while i < assets.len()
        invariant
            v == Seq::new(assets@.len(), |i: int| assets@[i]@),
            i <= assets.len(),
            first_asset(v.take(i as int), name@) is None,
        decreases assets.len() - i,
    {
        assert(v.take(i + 1).drop_last() =~= v.take(i as int));
        if same(assets[i].name.as_str(), name) {
            proof {
                first_asset_stays(v, name@, i + 1);
            }
            return Some(i);
        }
        i = i + 1;
    }
    assert(v.take(v.len() as int) =~= v);
    None
}

proof fn first_asset_stays(assets: Seq<AssetView>, name: Seq<char>, n: int)
    requires
        0 <= n <= assets.len(),
        first_asset(assets.take(n), name) is Some,
    ensures
        first_asset(assets, name) == first_asset(assets.take(n), name),
    decreases assets.len() - n,
{
    if n < assets.len() {
        assert(assets.take(n + 1).drop_last() =~= assets.take(n));
        first_asset_stays(assets, name, n + 1);
    } else {
        assert(assets.take(n) =~= assets);
    }
}

/// A file with a name is found by it.
proof fn named_assets_are_found(assets: Seq<AssetView>, name: Seq<char>, i: int)
    requires
        0 <= i < assets.len(),
        assets[i].name == name,
    ensures
        first_asset(assets, name) is Some,
    decreases assets.len(),
{
    if i < assets.len() - 1 {
        named_assets_are_found(assets.drop_last(), name, i);
    }
}

/// An official version in words.
fn text_of_version(v: &Version) -> (r: String)
    ensures
        r@ == version_text(v@),
{
    let mut r: String = decimal(v.major);
    r.append(".");
    let minor: String = decimal(v.minor);
    r.append(minor.as_str());
    r.append(".");
    let patch: String = decimal(v.patch);
    r.append(patch.as_str());
    r
}

/// Whether the official version `v` is newer than `w`.
fn is_newer(v: &Version, w: &Version) -> (r: bool)
    ensures
        r == newer_than(v@, w@),
{
    if v.major != w.major {
        v.major > w.major
    } else if v.minor != w.minor {
        v.minor > w.minor
    } else if v.patch != w.patch {
        v.patch > w.patch
    } else {
        !w.pre.as_str().is_empty()
    }
}

/// What there is to know of a release with the given official version, for a program with the given
/// one. The address is made from the fixed page and the tag, never taken from the answer.
pub fn describe(release: &Release, v: &Version, current: &Version) -> (r: Result<
    UpdateInfo,
    UpdateError,
>)
    ensures
        update_of(release@, v@, current@) == (match r {
            Ok(u) => Ok::<UpdateView, UpdateErrorView>(u@),
            Err(e) => Err(e@),
        }),
{
    let latest: String = text_of_version(v);
    let mut expected: String = "AVT-Replenishment-Windows-x64-v".to_string();
    expected.append(latest.as_str());
    expected.append(".zip");
    if !find_ready(&release.assets, expected.as_str()) {
        return Err(UpdateError::NotReady);
    }
    let i: usize = match find_asset(&release.assets, expected.as_str()) {
        Some(i) => i,
        None => {
            proof {
                let assets = release@.assets;
                let k = choose|k: int|
                    0 <= k < assets.len() && (#[trigger] assets[k]).name == expected@
                        && assets[k].state == "uploaded"@ && assets[k].size > 0;
                named_assets_are_found(assets, expected@, k);
            }
            return Err(UpdateError::NotReady);
        },
    };
    let asset: &Asset = &release.assets[i];
    assert(release@.assets[i as int] == asset@);
    let digest: Option<String> = match &asset.digest {
        Some(d) => Some(d.clone()),
        None => None,
    };
    let mut release_url: String = RELEASES_PAGE.to_string();
    release_url.append("/tag/");
    release_url.append(release.tag_name.as_str());
    Ok(
        UpdateInfo {
            asset_id: asset.id,
            asset_size: asset.size,
            digest,
            latest,
            newer: is_newer(v, current),
            release_url,
        },
    )
}

/// What there is to know of the newest release, from an answer with the given status and bytes,
/// which were decoded, for a program with the given version. The tag of a release that is told of is
/// an official version, with a `v` before it or without one.
pub fn parse_release(
    status: u32,
    bytes: &[u8],
    decoded: &Result<Release, String>,
    current: &str,
) -> (r: Result<UpdateInfo, UpdateError>)
    ensures
        release_read(status as nat, bytes@.len(), decoded_view(*decoded), current@) == (match r {
            Ok(u) => Ok::<UpdateView, UpdateErrorView>(u@),
            Err(e) => Err(e@),
        }),
        r matches Ok(u) ==> (decoded matches Ok(release) && u.latest@ == bare_tag(
            release.tag_name@,
        )),
        r matches Ok(u) ==> (decoded matches Ok(release) && forall|v: VersionView, w: VersionView|
            official(v) && official(w) && bare_tag(release.tag_name@) == #[trigger] version_text(v)
                && current@ == #[trigger] version_text(w) ==> (u.newer <==> numbers_rise(v, w))),
        decoded matches Ok(release) ==> (answer_fault(status as nat, bytes@.len()) is None
            && !release.draft && !release.prerelease ==> forall|v: VersionView, w: VersionView|
            official(v) && official(w) && bare_tag(release.tag_name@) == #[trigger] version_text(v)
                && current@ == #[trigger] version_text(w) ==> update_of(release@, v, w) == (match r {
                Ok(u) => Ok::<UpdateView, UpdateErrorView>(u@),
                Err(e) => Err(e@),
            })),
{
    match check_answer(status, bytes.len()) {
        Some(e) => {
            return Err(e);
        },
        None => {},
    }
    let release: &Release = match decoded {
        Ok(release) => release,
        Err(m) => {
            return Err(UpdateError::Format(m.clone()));
        },
    };
    if release.draft || release.prerelease {
        return Err(UpdateError::Unofficial);
    }
    let x: Vec<char> = chars(release.tag_name.as_str());
    let from: usize = if x.len() > 0 && x[0] == 'v' {
        1
    } else {
        0
    };
    let rest: Vec<char> = part(x.as_slice(), from, x.len());
    let tag: String = text(&rest);
    assert(tag@ =~= bare_tag(release.tag_name@));
    let v: Version = match read_version(tag.as_str()) {
        Ok(v) => v,
        Err(m) => {
            return Err(UpdateError::Version(m));
        },
    };
    if !v.pre.as_str().is_empty() || !v.build.as_str().is_empty() {
        return Err(UpdateError::Prerelease);
    }
    let c: Version = match read_version(current) {
        Ok(c) => c,
        Err(m) => {
            return Err(UpdateError::Current(m));
        },
    };
    describe(release, &v, &c)
}

/// No official version is newer than itself, and of two different ones exactly one is newer.
pub proof fn newer_is_an_order(v: VersionView, w: VersionView)
    requires
        v.pre.len() == 0,
        w.pre.len() == 0,
    ensures
        !newer_than(v, v),
        !(newer_than(v, w) && newer_than(w, v)),
        version_text(v) != version_text(w) ==> newer_than(v, w) || newer_than(w, v),
{
}

/// Where an update leads is under the fixed page of the releases.
pub proof fn links_are_fixed(
    status: nat,
    length: nat,
    decoded: Result<ReleaseView, Seq<char>>,
    current: Seq<char>,
)
    requires
        release_read(status, length, decoded, current) is Ok,
    ensures
        status == 200,
        length <= 2 * 1024 * 1024,
        begins(release_read(status, length, decoded, current)->Ok_0.release_url, RELEASES_PAGE@),
{
    let url = release_read(status, length, decoded, current)->Ok_0.release_url;
    let n = RELEASES_PAGE@.len() as int;
    assert(url.subrange(0, n) =~= RELEASES_PAGE@);
}

/// Whether the three numbers of one version come behind those of another, the first that differs
/// deciding.
pub open spec fn numbers_rise(v: VersionView, w: VersionView) -> bool {
    ||| v.major > w.major
    ||| v.major == w.major && v.minor > w.minor
    ||| v.major == w.major && v.minor == w.minor && v.patch > w.patch
}

/// A release is newer than an official version of the program where its numbers come behind that
/// version's, and only there; raising one of them makes any version newer, whatever stands behind it.
pub proof fn greater_numbers_are_newer(
    release: ReleaseView,
    v: VersionView,
    w: VersionView,
    update: UpdateView,
)
    requires
        w.pre.len() == 0,
        update_of(release, v, w) == Ok::<UpdateView, UpdateErrorView>(update),
    ensures
        update.newer <==> numbers_rise(v, w),
        v.major == w.major + 1 ==> update.newer,
        v.major == w.major && v.minor == w.minor + 1 ==> update.newer,
        v.major == w.major && v.minor == w.minor && v.patch == w.patch + 1 ==> update.newer,
        v.major < w.major ==> !update.newer,
        v.major == w.major && v.minor < w.minor ==> !update.newer,
        v.major == w.major && v.minor == w.minor && v.patch <= w.patch ==> !update.newer,
{
}

/// The official version with the same numbers is newer than one that came before it.
pub proof fn official_versions_follow_their_previews(
    release: ReleaseView,
    v: VersionView,
    w: VersionView,
    update: UpdateView,
)
    requires
        w.pre.len() > 0,
        update_of(release, v, w) == Ok::<UpdateView, UpdateErrorView>(update),
    ensures
        update.newer <==> numbers_rise(v, w) || (v.major == w.major && v.minor == w.minor && v.patch
            == w.patch),
{
}

/// An update is told of where the package of the version was uploaded and is not empty, and only
/// there; what is told is the version and the first file with the name of the package.
pub proof fn updates_have_their_package(release: ReleaseView, v: VersionView, current: VersionView)
    ensures
        ({
            let version = numeral(v.major) + "."@ + numeral(v.minor) + "."@ + numeral(v.patch);
            let name = "AVT-Replenishment-Windows-x64-v"@ + version + ".zip"@;
            let told = update_of(release, v, current);
            &&& told is Ok <==> exists|i: int|
                0 <= i < release.assets.len() && (#[trigger] release.assets[i]).name == name
                    && release.assets[i].state == "uploaded"@ && release.assets[i].size > 0
            &&& told is Err ==> told == Err::<UpdateView, UpdateErrorView>(UpdateErrorView::NotReady)
            &&& told matches Ok(u) ==> {
                &&& u.latest == version
                &&& u.release_url == RELEASES_PAGE@ + "/tag/"@ + release.tag_name
                &&& exists|i: int|
                    0 <= i < release.assets.len() && (#[trigger] release.assets[i]).name == name
                        && u.asset_id == release.assets[i].id && u.asset_size
                        == release.assets[i].size && u.digest == release.assets[i].digest
                        && forall|j: int|
                        0 <= j < i ==> (#[trigger] release.assets[j]).name != name
            }
        }),
{
    let name = package_name(v);
    if is_ready(release.assets, name) {
        let k = choose|k: int|
            0 <= k < release.assets.len() && (#[trigger] release.assets[k]).name == name
                && release.assets[k].state == "uploaded"@ && release.assets[k].size > 0;
        named_assets_are_found(release.assets, name, k);
        first_asset_is_first(release.assets, name);
        let i = first_asset(release.assets, name)->Some_0;
        assert(release.assets[i].name == name);
    }
}

/// The first file with a name has it, and none before does.
proof fn first_asset_is_first(assets: Seq<AssetView>, name: Seq<char>)
    ensures
        first_asset(assets, name) matches Some(i) ==> 0 <= i < assets.len() && assets[i].name == name
            && forall|j: int| 0 <= j < i ==> (#[trigger] assets[j]).name != name,
        first_asset(assets, name) is None ==> forall|j: int|
            0 <= j < assets.len() ==> (#[trigger] assets[j]).name != name,
    decreases assets.len(),
{
    if assets.len() > 0 {
        let rest = assets.drop_last();
        first_asset_is_first(rest, name);
        match first_asset(rest, name) {
            Some(i) => {
                assert(rest[i] == assets[i]);
                assert forall|j: int| 0 <= j < i implies (#[trigger] assets[j]).name != name by {
                    assert(rest[j] == assets[j]);
                }
            },
            None => {
                assert forall|j: int| 0 <= j < assets.len() - 1 implies (#[trigger] assets[j]).name
                    != name by {
                    assert(rest[j] == assets[j]);
                }
            },
        }
    }
}

/// Only the answer to a good request, of two megabytes at most, is read, and only a release that is
/// neither a draft nor a preview and whose tag is the version of an official release.
pub proof fn only_official_releases_are_read(
    status: nat,
    length: nat,
    decoded: Result<ReleaseView, Seq<char>>,
    current: Seq<char>,
)
    ensures
        ({
            let told = release_read(status, length, decoded, current);
            &&& status == 200 && length > 2097152 ==> told == Err::<UpdateView, UpdateErrorView>(
                UpdateErrorView::TooLong,
            )
            &&& status == 401 ==> told == Err::<UpdateView, UpdateErrorView>(
                UpdateErrorView::Unauthorized,
            )
            &&& status == 403 || status == 429 ==> told == Err::<UpdateView, UpdateErrorView>(
                UpdateErrorView::Refused,
            )
            &&& status == 404 ==> told == Err::<UpdateView, UpdateErrorView>(
                UpdateErrorView::NotFound,
            )
            &&& 300 <= status < 400 ==> told == Err::<UpdateView, UpdateErrorView>(
                UpdateErrorView::Redirected,
            )
            &&& status != 200 && told is Err && status != 401 && status != 403 && status != 404
                && status != 429 && !(300 <= status < 400) ==> told == Err::<
                UpdateView,
                UpdateErrorView,
            >(UpdateErrorView::Status(status))
            &&& status != 200 ==> told is Err
            &&& status == 200 && length <= 2097152 ==> match decoded {
                Err(m) => told == Err::<UpdateView, UpdateErrorView>(UpdateErrorView::Format(m)),
                Ok(release) => {
                    let tag = release.tag_name;
                    let bare = if tag.len() > 0 && tag[0] == 'v' {
                        tag.subrange(1, tag.len() as int)
                    } else {
                        tag
                    };
                    &&& release.draft ==> told == Err::<UpdateView, UpdateErrorView>(
                        UpdateErrorView::Unofficial,
                    )
                    &&& release.prerelease ==> told == Err::<UpdateView, UpdateErrorView>(
                        UpdateErrorView::Unofficial,
                    )
                    &&& !release.draft && !release.prerelease ==> match (
                        version_read(bare),
                        version_read(current),
                    ) {
                        (Err(m), _) => told == Err::<UpdateView, UpdateErrorView>(
                            UpdateErrorView::Version(m),
                        ),
                        (Ok(v), c) => if v.pre.len() > 0 || v.build.len() > 0 {
                            told == Err::<UpdateView, UpdateErrorView>(UpdateErrorView::Prerelease)
                        } else {
                            match c {
                                Err(m) => told == Err::<UpdateView, UpdateErrorView>(
                                    UpdateErrorView::Current(m),
                                ),
                                Ok(w) => told == update_of(release, v, w),
                            }
                        },
                    }
                },
            }
        }),
{
    if let Ok(release) = decoded {
        let tag = release.tag_name;
        if tag.len() > 0 && tag[0] == 'v' {
            assert(bare_tag(tag) =~= tag.subrange(1, tag.len() as int));
        }
    }
}

/// A token is made of one to 1024 digits, capital letters, small letters and underscores.
pub proof fn tokens_are_words(token: Seq<char>)
    ensures
        valid_token(token) <==> 1 <= token.len() <= 1024 && forall|i: int|
            0 <= i < token.len() ==> {
                let c = (#[trigger] token[i]) as int;
                48 <= c <= 57 || 65 <= c <= 90 || c == 95 || 97 <= c <= 122
            },
{
    if 1 <= token.len() <= 1024 && forall|i: int|
        0 <= i < token.len() ==> {
            let c = (#[trigger] token[i]) as int;
            48 <= c <= 57 || 65 <= c <= 90 || c == 95 || 97 <= c <= 122
        } {
        assert forall|i: int| 0 <= i < token.len() implies token_char(#[trigger] token[i]) by {
            let c = token[i] as int;
            assert(48 <= c <= 57 || 65 <= c <= 90 || c == 95 || 97 <= c <= 122);
        }
    }
    if valid_token(token) {
        assert forall|i: int| 0 <= i < token.len() implies {
            let c = (#[trigger] token[i]) as int;
            48 <= c <= 57 || 65 <= c <= 90 || c == 95 || 97 <= c <= 122
        } by {
            assert(token_char(token[i]));
        }
    }
}

/// A release, a version and an update are seen as what they hold.
pub proof fn releases_are_seen_as_they_are(r: Release, v: Version, u: UpdateInfo, i: int)
    ensures
        r@.tag_name == r.tag_name@,
        r@.draft == r.draft,
        r@.prerelease == r.prerelease,
        r@.assets.len() == r.assets@.len(),
        0 <= i < r.assets@.len() ==> {
            let a = r.assets@[i];
            &&& r@.assets[i].id == a.id
            &&& r@.assets[i].name == a.name@
            &&& r@.assets[i].state == a.state@
            &&& r@.assets[i].size == a.size
            &&& match a.digest {
                Some(d) => r@.assets[i].digest == Some(d@),
                None => r@.assets[i].digest is None,
            }
        },
        v@.major == v.major,
        v@.minor == v.minor,
        v@.patch == v.patch,
        v@.pre == v.pre@,
        v@.build == v.build@,
        u@.asset_id == u.asset_id,
        u@.asset_size == u.asset_size,
        u@.latest == u.latest@,
        u@.newer == u.newer,
        u@.release_url == u.release_url@,
        match u.digest {
            Some(d) => u@.digest == Some(d@),
            None => u@.digest is None,
        },
{
}

/// What is said of a check for updates that fails: the words are fixed, and what they are
/// about stands in them as it is.
pub proof fn faults_of_updates_are_worded(error: UpdateErrorView)
    ensures
        match error {
            UpdateErrorView::Token => error.words() == "请填写有效的 GitHub Token；不要填写 GitHub 登录密码。"@,
            UpdateErrorView::Unauthorized => error.words() == "GitHub 授权无效或已过期，请重新设置更新授权。"@,
            UpdateErrorView::Refused => error.words() == "GitHub 拒绝请求或已限流，请确认该仓库的 Contents 只读权限，稍后重试。"@,
            UpdateErrorView::NotFound => error.words() == "无法读取私有仓库的最新版本：可能尚未发布正式版本，或 Token 未获该仓库访问权限。"@,
            UpdateErrorView::Redirected => error.words() == "更新地址发生重定向。为避免将凭据发送到其他地址，本次检查已停止。"@,
            UpdateErrorView::Status(n) => stands_between(
                error.words(),
                "更新检查失败（HTTP "@,
                numeral(n),
                "），请稍后重试。"@,
            ),
            UpdateErrorView::TooLong => error.words() == "更新响应过大，已停止处理。"@,
            UpdateErrorView::Format(m) => stands_between(
                error.words(),
                "GitHub 版本信息格式无效: "@,
                m,
                Seq::<char>::empty(),
            ),
            UpdateErrorView::Unofficial => error.words() == "更新源返回了非正式版本，本次不推荐更新。"@,
            UpdateErrorView::Version(m) => stands_between(
                error.words(),
                "版本号格式无效: "@,
                m,
                Seq::<char>::empty(),
            ),
            UpdateErrorView::Prerelease => error.words() == "仅支持正式版本号。"@,
            UpdateErrorView::Current(m) => error.words() == m,
            UpdateErrorView::NotReady => error.words() == "最新 Release 的 Windows 安装包尚未就绪，请稍后重试。"@,
        },
{
}

} // verus!
