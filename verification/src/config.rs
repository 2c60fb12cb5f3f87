//! The server configuration model, the selection of inputs and targets to
//! process, input statistics and the directories a configuration needs.

use vstd::prelude::*;
use vstd::string::*;
use crate::filter::ConfigRename;
use crate::model::{ItemField, ProcessingOrder, SortOrder, TargetType};
use crate::playlist::{PlaylistGroup, all_channels, groups_view};
use crate::processing::{ConfigTarget, ConfigTargetOptions, lemma_all_channels_prefix};
use crate::text::{concat_str, dec_digits, push_decimal};

verus! {

#[derive(Debug, Clone, Copy, PartialEq, Eq, Structural)]
pub enum InputType {
    M3u,
    Xtream,
    M3uBatch,
    XtreamBatch,
}

#[derive(Debug, Clone, Copy, PartialEq, Eq, Structural)]
pub enum MsgKind {
    Info,
    Error,
    Stats,
}

#[derive(Debug, Clone, Copy, PartialEq, Eq, Structural)]
pub enum ProxyType {
    Reverse,
    Redirect,
}

pub struct ConfigApi {
    pub host: String,
    pub port: u16,
    pub web_root: String,
}

pub struct ConfigSortGroup {
    pub order: SortOrder,
}

pub struct ConfigSortChannel {
    pub field: ItemField,
    pub group_pattern: String,
    pub order: SortOrder,
}

pub struct ConfigSort {
    pub match_as_ascii: bool,
    pub groups: Option<ConfigSortGroup>,
    pub channels: Option<Vec<ConfigSortChannel>>,
}

pub struct TargetOutput {
    pub target: TargetType,
    pub filename: Option<String>,
}

pub struct MessagingConfig {
    pub notify_on: Vec<MsgKind>,
}

pub struct VideoDownloadConfig {
    pub headers: Vec<(String, String)>,
    pub directory: Option<String>,
    pub organize_into_directories: bool,
}

pub struct VideoConfig {
    pub extensions: Vec<String>,
    pub download: Option<VideoDownloadConfig>,
}

pub struct ProxyUserCredentials {
    pub username: String,
    pub password: String,
    pub token: Option<String>,
    pub proxy: ProxyType,
}

pub struct TargetUser {
    pub target: String,
    pub credentials: Vec<ProxyUserCredentials>,
}

pub struct ApiProxyServerInfo {
    pub name: String,
    pub protocol: String,
    pub host: String,
    pub port: Option<String>,
    pub timezone: String,
    pub message: String,
}

pub struct ApiProxyConfig {
    pub server: Vec<ApiProxyServerInfo>,
    pub user: Vec<TargetUser>,
}

pub struct ServerInputConfig {
    pub id: u16,
    pub input_type: InputType,
    pub url: String,
    pub username: Option<String>,
    pub password: Option<String>,
    pub persist: Option<String>,
    pub name: Option<String>,
    pub enabled: bool,
}

pub struct ServerTargetConfig {
    pub id: u16,
    pub enabled: bool,
    pub name: String,
    pub options: Option<ConfigTargetOptions>,
    pub sort: Option<ConfigSort>,
    pub filter: String,
    pub output: Vec<TargetOutput>,
    pub rename: Option<Vec<ConfigRename>>,
    pub mapping: Option<Vec<String>>,
    pub processing_order: ProcessingOrder,
    pub watch: Option<Vec<String>>,
}

pub struct ServerSourceConfig {
    pub inputs: Vec<ServerInputConfig>,
    pub targets: Vec<ServerTargetConfig>,
}

pub struct ServerConfig {
    pub api: ConfigApi,
    pub threads: u8,
    pub working_dir: String,
    pub backup_dir: Option<String>,
    pub schedule: Option<String>,
    pub sources: Vec<ServerSourceConfig>,
    pub messaging: Option<MessagingConfig>,
    pub video: Option<VideoConfig>,
    pub api_proxy: Option<ApiProxyConfig>,
}

/// An input of a source, as the processing reads it.
pub struct ConfigInput {
    pub id: u16,
    pub name: String,
    pub input_type: InputType,
    pub url: String,
    pub enabled: bool,
}

/// The inputs and targets named on the command line; `enabled` when any
/// were named.
pub struct ProcessTargets {
    pub enabled: bool,
    pub inputs: Vec<u16>,
    pub targets: Vec<u16>,
}

fn contains_id(ids: &Vec<u16>, id: u16) -> (r: bool)
    ensures
        r == ids@.contains(id),
{
    let n: usize = ids.len();
    let mut i: usize = 0;
    while i < n
        invariant
            n == ids@.len(),
            i <= n,
            forall|t: int| 0 <= t < i ==> ids@[t] != id,
        decreases n - i,
    {
        if ids[i] == id {
            assert(ids@[i as int] == id);
            return true;
        }
        i = i + 1;
    }
    false
}

impl ProcessTargets {
    pub fn has_input(&self, id: u16) -> (r: bool)
        ensures
            r == self.inputs@.contains(id),
    {
        contains_id(&self.inputs, id)
    }

    pub fn has_target(&self, id: u16) -> (r: bool)
        ensures
            r == self.targets@.contains(id),
    {
        contains_id(&self.targets, id)
    }
}

/// An input is processed when nothing was named on the command line and it
/// is enabled, or when it was named.
pub fn is_input_enabled(input: &ConfigInput, user_targets: &ProcessTargets) -> (r: bool)
    ensures
        r == ((!user_targets.enabled && input.enabled) || user_targets.inputs@.contains(input.id)),
{
    let input_enabled: bool = input.enabled;
    let input_id: u16 = input.id;
    (!user_targets.enabled && input_enabled) || user_targets.has_input(input_id)
}

/// A target is processed when nothing was named and it is enabled, or when
/// it was named.
pub fn is_target_enabled(target: &ConfigTarget, user_targets: &ProcessTargets) -> (r: bool)
    ensures
        r == ((!user_targets.enabled && target.enabled) || (user_targets.enabled
            && user_targets.targets@.contains(target.id))),
{
    (!user_targets.enabled && target.enabled) || (user_targets.enabled && user_targets.has_target(
        target.id,
    ))
}

#[derive(Debug, Clone, Copy, PartialEq, Eq, Structural)]
pub struct PlaylistStats {
    pub group_count: usize,
    pub channel_count: usize,
}

pub struct InputStats {
    pub name: String,
    pub input_type: InputType,
    pub error_count: usize,
    pub raw_stats: PlaylistStats,
    pub processed_stats: PlaylistStats,
    pub secs_took: u64,
}

/// The statistics of a downloaded input, before processing.
pub fn create_input_stat(
    group_count: usize,
    channel_count: usize,
    error_count: usize,
    input_type: InputType,
    input_name: &str,
    secs_took: u64,
) -> (r: InputStats)
    ensures
        r.name@ == input_name@,
        r.input_type == input_type,
        r.error_count == error_count,
        r.raw_stats == (PlaylistStats { group_count, channel_count }),
        r.processed_stats == (PlaylistStats { group_count: 0, channel_count: 0 }),
        r.secs_took == secs_took,
{
    InputStats {
        name: String::from_str(input_name),
        input_type,
        error_count,
        raw_stats: PlaylistStats { group_count, channel_count },
        processed_stats: PlaylistStats { group_count: 0, channel_count: 0 },
        secs_took,
    }
}

/// The directories a configuration works in: the working directory, then
/// the backup directory and the video download directory when configured.
pub open spec fn config_directories(
    working_dir: Seq<char>,
    backup_dir: Option<String>,
    video: Option<VideoConfig>,
) -> Seq<Seq<char>> {
    let base = seq![working_dir];
    let with_backup = match backup_dir {
        Some(b) => base.push(b@),
        None => base,
    };
    match video {
        Some(v) => match v.download {
            Some(d) => match d.directory {
                Some(dir) => with_backup.push(dir@),
                None => with_backup,
            },
            None => with_backup,
        },
        None => with_backup,
    }
}

/// The directories to create at start-up, in order.
pub fn directories_to_create(cfg: &ServerConfig) -> (r: Vec<String>)
    ensures
        r@.map_values(|s: String| s@) == config_directories(cfg.working_dir@, cfg.backup_dir, cfg.video),
{
    let mut out: Vec<String> = Vec::new();
    out.push(cfg.working_dir.clone());
    match &cfg.backup_dir {
        Some(b) => out.push(b.clone()),
        None => {},
    }
    match &cfg.video {
        Some(v) => match &v.download {
            Some(d) => match &d.directory {
                Some(dir) => out.push(dir.clone()),
                None => {},
            },
            None => {},
        },
        None => {},
    }
    assert(out@.map_values(|s: String| s@) =~= config_directories(
        cfg.working_dir@,
        cfg.backup_dir,
        cfg.video,
    ));
    out
}

/// The error of an enabled input that delivered no groups.
pub fn empty_input_message(input_name: &str) -> (r: String)
    ensures
        r@ == "Source is empty "@ + input_name@,
{
    concat_str("Source is empty ", input_name)
}

/// The error of a source none of whose enabled inputs delivered groups.
pub fn empty_source_message(source_idx: usize) -> (r: String)
    ensures
        r@ == "Source at "@ + dec_digits(source_idx as nat) + " is empty"@,
{
    let mut s: String = String::from_str("Source at ");
    push_decimal(&mut s, source_idx as u128);
    s.append(" is empty");
    s
}

/// The statistics of a playlist: its groups and its channels.
pub fn playlist_stats(playlist: &Vec<PlaylistGroup>) -> (r: PlaylistStats)
    requires
        all_channels(groups_view(playlist@)).len() <= usize::MAX,
    ensures
        r.group_count == playlist@.len(),
        r.channel_count == all_channels(groups_view(playlist@)).len(),
{
    let ghost gv = groups_view(playlist@);
    let n: usize = playlist.len();
    let mut count: usize = 0;
    let mut g: usize = 0;
    while g < n
        invariant
            n == playlist@.len(),
            gv == groups_view(playlist@),
            g <= n,
            count == all_channels(gv.take(g as int)).len(),
            all_channels(gv).len() <= usize::MAX,
        decreases n - g,
    {
        assert(gv.take(g + 1).drop_last() =~= gv.take(g as int));
        proof {
            lemma_all_channels_prefix(gv, g + 1);
        }
        count = count + playlist[g].channels.len();
        g = g + 1;
    }
    assert(gv.take(n as int) =~= gv);
    PlaylistStats { group_count: n, channel_count: count }
}

/// The address the health check asks on the local server.
pub fn healthcheck_url(port: u16) -> (r: String)
    ensures
        r@ == "http://localhost:"@ + dec_digits(port as nat) + "/healthcheck"@,
{
    let mut s: String = String::from_str("http://localhost:");
    push_decimal(&mut s, port as u128);
    s.append("/healthcheck");
    s
}

/// The health check passes when the server reports the status `ok`.
pub fn healthcheck_passed(status: &str) -> (r: bool)
    ensures
        r == (status@ == "ok"@),
{
    crate::text::str_eq(status, "ok")
}

} // verus!
