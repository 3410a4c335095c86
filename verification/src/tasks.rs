//! The download tasks of a lesson, the file that a streamed download is
//! written to, and the arguments of the helper process.

use crate::content::{AssetKind, Discovery, DiscoveryView};
use crate::embed::{opt_text, texts};
use crate::sanitize::{safe_name, safe_path};
use crate::text::copy_strings;
use vstd::prelude::*;

verus! {

/// How a task is carried out.
#[derive(Clone, Copy, Debug, PartialEq, Eq, Structural)]
pub enum Strategy {
    /// The bytes behind the address are streamed into a file.
    Stream,
    /// The helper process is run on the address.
    Helper,
}

/// One unit of download work.
#[derive(Clone, Debug, PartialEq, Eq)]
pub struct DownloadTask {
    pub url: String,
    /// The destination directory, as path segments below the output root.
    pub directory: Vec<String>,
    pub name: Option<String>,
    pub strategy: Strategy,
}

/// The model of a task.
pub ghost struct TaskView {
    pub url: Seq<char>,
    pub directory: Seq<Seq<char>>,
    pub name: Option<Seq<char>>,
    pub strategy: Strategy,
}

impl View for DownloadTask {
    type V = TaskView;

    open spec fn view(&self) -> TaskView {
        TaskView {
            url: self.url@,
            directory: texts(self.directory@),
            name: opt_text(self.name),
            strategy: self.strategy,
        }
    }
}

/// The models of a sequence of tasks.
pub open spec fn tasks(list: Seq<DownloadTask>) -> Seq<TaskView> {
    list.map_values(|t: DownloadTask| t@)
}

/// The strategy for an asset: the helper for an embed, streaming otherwise.
pub open spec fn strategy_of(kind: AssetKind) -> Strategy {
    match kind {
        AssetKind::Embed => Strategy::Helper,
        AssetKind::File => Strategy::Stream,
        AssetKind::Video => Strategy::Stream,
    }
}

/// The task that downloads a discovered asset into `directory`.
pub open spec fn task_of(directory: Seq<Seq<char>>, found: DiscoveryView) -> TaskView {
    TaskView { url: found.url, directory, name: found.name, strategy: strategy_of(found.kind) }
}

/// The tasks of a lesson: one for each discovered asset, in the order of
/// discovery, each with the lesson's directory as its destination.
pub fn lesson_tasks(directory: &Vec<String>, found: &Vec<Discovery>) -> (r: Vec<DownloadTask>)
    ensures
        tasks(r@) == found@.map_values(|d: Discovery| task_of(texts(directory@), d@)),
{
    let mut out: Vec<DownloadTask> = Vec::new();
    let mut i: usize = 0;
    while i < found.len()
        invariant
            i <= found@.len(),
            out@.len() == i,
            forall|k: int| 0 <= k < i ==> (#[trigger] out@[k])@ == task_of(texts(directory@), found@[k]@),
        decreases found@.len() - i,
    {
        let d = &found[i];
        let strategy = match d.kind {
            AssetKind::Embed => Strategy::Helper,
            AssetKind::File => Strategy::Stream,
            AssetKind::Video => Strategy::Stream,
        };
        let name = match &d.name {
            Some(n) => Some(n.clone()),
            None => None,
        };
        let target = copy_strings(directory);
        proof {
            assert(texts(target@) =~= texts(directory@));
        }
        out.push(DownloadTask { url: d.url.clone(), directory: target, name, strategy });
        i += 1;
    }
    proof {
        assert(tasks(out@) =~= found@.map_values(|d: Discovery| task_of(texts(directory@), d@)));
    }
    out
}

/// Why a streamed download has no file to write to.
#[derive(Clone, Copy, Debug, PartialEq, Eq, Structural)]
pub enum TargetError {
    /// The address is no URL.
    InvalidUrl,
    /// No name was given, and the URL has no path segments to take one from.
    NoPathSegments,
}

/// What parsing an address yields: nothing where it is no URL; else the last
/// segment of the URL's path, if the URL has path segments.
pub uninterp spec fn url_last_segment(url: Seq<char>) -> Option<Option<Seq<char>>>;

/// The model of a parsed address.
pub open spec fn segment_text(parsed: Option<Option<String>>) -> Option<Option<Seq<char>>> {
    match parsed {
        Some(segment) => Some(opt_text(segment)),
        None => None,
    }
}

/// Parses an address and takes the last segment of its path.
///
/// Trusted: stands for `url::Url::parse`, `Url::path_segments` and the last
/// item of the segments. The result is a function of the address alone,
/// named `url_last_segment`: absent where `parse` returns an error, and
/// holding no segment where `path_segments` returns none.
#[verifier::external_body]
pub(crate) fn last_segment(url: &str) -> (r: Option<Option<String>>)
    ensures
        segment_text(r) == url_last_segment(url@),
{
    let parsed = url::Url::parse(url).ok()?;
    Some(parsed.path_segments().and_then(|segments| segments.last()).map(|s| s.to_owned()))
}

/// The name of the file for a parsed address and an optional display name:
/// the sanitized display name, or without one the sanitized last path
/// segment. An address that is no URL is an error even when a name is given.
pub open spec fn target_name(parsed: Option<Option<Seq<char>>>, name: Option<Seq<char>>) -> Result<
    Seq<char>,
    TargetError,
> {
    match parsed {
        None => Err(TargetError::InvalidUrl),
        Some(segment) => match name {
            Some(n) => Ok(safe_name(n)),
            None => match segment {
                Some(s) => Ok(safe_name(s)),
                None => Err(TargetError::NoPathSegments),
            },
        },
    }
}

/// The model of a file name or the error in its place.
pub open spec fn name_text(r: Result<String, TargetError>) -> Result<Seq<char>, TargetError> {
    match r {
        Ok(s) => Ok(s@),
        Err(e) => Err(e),
    }
}

/// The name of the file for a parsed address and an optional display name.
pub fn name_target(parsed: &Option<Option<String>>, name: &Option<String>) -> (r: Result<
    String,
    TargetError,
>)
    ensures
        name_text(r) == target_name(segment_text(*parsed), opt_text(*name)),
{
    match parsed {
        None => Err(TargetError::InvalidUrl),
        Some(segment) => match name {
            Some(n) => Ok(safe_path(n.as_str())),
            None => match segment {
                Some(s) => Ok(safe_path(s.as_str())),
                None => Err(TargetError::NoPathSegments),
            },
        },
    }
}

/// The name of the file that the download of `url` is written to.
pub fn file_name(url: &str, name: &Option<String>) -> (r: Result<String, TargetError>)
    ensures
        name_text(r) == target_name(url_last_segment(url@), opt_text(*name)),
{
    let parsed = last_segment(url);
    name_target(&parsed, name)
}

/// The referring page that the helper process is told of.
pub const REFERER: &'static str = "https://elopage.com/";

/// The arguments of the helper process for one embed.
pub open spec fn helper_line(target: Seq<char>, referer: Seq<char>, destination: Seq<char>) -> Seq<
    Seq<char>,
> {
    seq![
        "--newline"@,
        "--no-colors"@,
        "--legacy-server-connect"@,
        "--add-header"@,
        "Referer:"@ + referer,
        target,
        "--paths"@,
        destination,
    ]
}

/// The arguments with which the helper process is started: line-wise and
/// colourless output, the legacy connection flag, the referring page as a
/// header, the address to fetch, and the directory to write to.
pub fn helper_arguments(target: &str, referer: &str, destination: &str) -> (r: Vec<String>)
    ensures
        texts(r@) == helper_line(target@, referer@, destination@),
{
    let mut out: Vec<String> = Vec::new();
    out.push(String::from_str("--newline"));
    out.push(String::from_str("--no-colors"));
    out.push(String::from_str("--legacy-server-connect"));
    out.push(String::from_str("--add-header"));
    let mut header = String::from_str("Referer:");
    header.append(referer);
    out.push(header);
    out.push(String::from_str(target));
    out.push(String::from_str("--paths"));
    out.push(String::from_str(destination));
    proof {
        assert(texts(out@) =~= helper_line(target@, referer@, destination@));
    }
    out
}

} // verus!
