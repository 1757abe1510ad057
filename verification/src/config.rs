//! The configuration of the bridge: its parts, their defaults and their rules.
use vstd::prelude::*;
use vstd::string::*;
use vstd::utf8::*;

use crate::paths::{
    absolute, child_path, is_absolute, parse, path_is_within, path_starts_at, render, starts_at,
    within, Parts,
};
use crate::security::{hex_encode, hex_text, is_within_any, random_bytes, within_any};
use crate::text::{
    cat, cat3, char_is_alphanumeric, char_is_control, char_is_white, chars_of, contains, is_alphanumeric,
    is_blank, is_control, is_white, lower, starts_with, str_eq, text_contains, text_starts_with,
    to_lower, trim, views,
};

verus! {

broadcast use vstd::string::group_string_axioms;

/// Why an operation was refused.
#[derive(Debug)]
pub struct Failure {
    pub message: String,
}

/// The refusal with that message.
pub fn failure(message: &str) -> (r: Failure)
    ensures
        r.message@ == message@,
{
    Failure { message: message.to_owned() }
}

/// Where the secret of the bot is kept.
#[derive(Clone, Copy, Debug, PartialEq, Eq, Structural)]
pub enum AppSecretSource {
    CredentialManager,
    Environment,
}

impl Default for AppSecretSource {
    fn default() -> (r: Self)
        ensures
            r == AppSecretSource::CredentialManager,
    {
        AppSecretSource::CredentialManager
    }
}

/// The bridge itself.
#[derive(Clone, Debug)]
pub struct BridgeConfig {
    pub pipe_name: String,
    pub ipc_token: String,
    pub database_path: String,
    pub workspace_roots: Vec<String>,
    pub approval_ttl_seconds: u64,
    pub bridge_wait_seconds: u64,
    pub bind_code_ttl_seconds: u64,
    pub question_ttl_seconds: u64,
    pub message_chunk_chars: usize,
    pub message_total_chars: usize,
    pub messages_per_minute: u32,
    pub messages_per_day: u32,
    pub audit_retention_days: u32,
}

/// The bot and its endpoints.
#[derive(Clone, Debug)]
pub struct QqConfig {
    pub app_id: String,
    pub app_secret_source: AppSecretSource,
    pub app_secret_env: String,
    pub credential_service: String,
    pub token_endpoint: String,
    pub api_base: String,
    pub gateway_endpoint: String,
    pub intents: u64,
    pub token_refresh_skew_seconds: u64,
    pub approval_buttons_enabled: bool,
    pub voice_input_enabled: bool,
}

/// The agent hosts and the adapter that speaks to them.
#[derive(Clone, Debug)]
pub struct AhpConfig {
    pub enabled: bool,
    pub shared_workspaces: Vec<String>,
    pub authorized_targets: Vec<AhpAuthorizedTarget>,
    pub event_retention_days: u32,
    pub command_lease_seconds: u64,
    pub poll_seconds: u64,
    pub adapter_stale_seconds: u64,
    pub adapter_auto_start: bool,
    pub node_executable: Option<String>,
    pub adapter_script: Option<String>,
    pub code_executable: Option<String>,
    pub code_launcher: Option<String>,
    pub ssh_executable: Option<String>,
    pub tool_notification_mode: AhpToolNotificationMode,
    pub typing_indicator_enabled: bool,
    pub typing_duration_seconds: u8,
    pub typing_refresh_seconds: u8,
}

/// Which tools and commands an agent may use.
#[derive(Clone, Debug)]
pub struct PolicyConfig {
    pub auto_allow_tools: Vec<String>,
    pub approval_tools: Vec<String>,
    pub approved_command_prefixes: Vec<String>,
}

/// The whole configuration.
#[derive(Clone, Debug)]
pub struct AppConfig {
    pub bridge: BridgeConfig,
    pub qq: QqConfig,
    pub ahp: AhpConfig,
    pub policy: PolicyConfig,
}

/// A workspace that sessions may be run in.
#[derive(Clone, Debug)]
pub enum AhpAuthorizedTarget {
    Local { path: String },
    Ssh {
        alias: String,
        path: String,
        user: String,
        host: String,
        port: u16,
        host_key_fingerprints: Vec<String>,
    },
}

/// A workspace that sessions may be run in, as plain data.
#[verifier::ext_equal]
pub ghost enum Target {
    Local { path: Seq<char> },
    Ssh {
        alias: Seq<char>,
        path: Seq<char>,
        user: Seq<char>,
        host: Seq<char>,
        port: u16,
        keys: Seq<Seq<char>>,
    },
}

impl View for AhpAuthorizedTarget {
    type V = Target;

    open spec fn view(&self) -> Target {
        match *self {
            AhpAuthorizedTarget::Local { path } => Target::Local { path: path@ },
            AhpAuthorizedTarget::Ssh { alias, path, user, host, port, host_key_fingerprints } =>
                Target::Ssh {
                alias: alias@,
                path: path@,
                user: user@,
                host: host@,
                port,
                keys: views(host_key_fingerprints@),
            },
        }
    }
}

/// The targets of a list as plain data.
pub open spec fn targets_of(list: Seq<AhpAuthorizedTarget>) -> Seq<Target> {
    list.map_values(|t: AhpAuthorizedTarget| t@)
}

/// Whether two targets are one workspace: for local ones, each path lies within
/// the other; for remote ones, all is equal.
pub open spec fn same_target(a: Target, b: Target) -> bool {
    match (a, b) {
        (Target::Local { path: p }, Target::Local { path: q }) => within(p, q) && within(q, p),
        (Target::Ssh { .. }, Target::Ssh { .. }) => a == b,
        _ => false,
    }
}

/// Whether the target is one of the list.
pub open spec fn is_known(list: Seq<Target>, t: Target) -> bool {
    exists|i: int| 0 <= i < list.len() && same_target(#[trigger] list[i], t)
}

/// The list with one more target, unless it is known.
pub open spec fn with_target(list: Seq<Target>, t: Target) -> Seq<Target> {
    if is_known(list, t) {
        list
    } else {
        list.push(t)
    }
}

/// The targets and, behind them, the shared workspaces that are not among them.
pub open spec fn effective(targets: Seq<Target>, shared: Seq<Seq<char>>) -> Seq<Target>
    decreases shared.len(),
{
    if shared.len() == 0 {
        targets
    } else {
        with_target(effective(targets, shared.drop_last()), Target::Local { path: shared.last() })
    }
}

/// The targets without those that repeat an earlier one.
pub open spec fn distinct(targets: Seq<Target>) -> Seq<Target>
    decreases targets.len(),
{
    if targets.len() == 0 {
        targets
    } else {
        with_target(distinct(targets.drop_last()), targets.last())
    }
}

/// The paths of the local targets.
pub open spec fn local_paths(targets: Seq<Target>) -> Seq<Seq<char>>
    decreases targets.len(),
{
    if targets.len() == 0 {
        Seq::empty()
    } else {
        match targets.last() {
            Target::Local { path } => local_paths(targets.drop_last()).push(path),
            Target::Ssh { .. } => local_paths(targets.drop_last()),
        }
    }
}

/// A list of its own with the same texts.
pub fn copy_texts(list: &Vec<String>) -> (r: Vec<String>)
    ensures
        views(r@) == views(list@),
{
    let mut r: Vec<String> = Vec::new();
    let mut i: usize = 0;
    while i < list.len()
        invariant
            i <= list@.len(),
            r@.len() == i,
            forall|j: int| 0 <= j < i ==> (#[trigger] r@[j])@ == list@[j]@,
        decreases list@.len() - i,
    {
        r.push(list[i].clone());
        i += 1;
    }
    assert(views(r@) =~= views(list@));
    r
}

/// Whether two lists hold the same texts in the same order.
pub fn same_texts(a: &Vec<String>, b: &Vec<String>) -> (r: bool)
    ensures
        r == (views(a@) == views(b@)),
{
    if a.len() != b.len() {
        assert(views(a@).len() != views(b@).len());
        return false;
    }
    let mut i: usize = 0;
    while i < a.len()
        invariant
            a@.len() == b@.len(),
            i <= a@.len(),
            forall|j: int| 0 <= j < i ==> (#[trigger] a@[j])@ == b@[j]@,
        decreases a@.len() - i,
    {
        if a[i] != b[i] {
            assert(views(a@)[i as int] != views(b@)[i as int]);
            return false;
        }
        i += 1;
    }
    assert(views(a@) =~= views(b@));
    true
}

impl AhpAuthorizedTarget {
    /// The local workspace at that path.
    pub fn local(path: String) -> (r: Self)
        ensures
            r == (AhpAuthorizedTarget::Local { path }),
    {
        AhpAuthorizedTarget::Local { path }
    }

    /// Where the target lies, in a word.
    pub fn display_label(&self) -> (r: String)
        ensures
            match self@ {
                Target::Local { .. } => r@ == "local"@,
                Target::Ssh { alias, .. } => r@ == "ssh:"@ + alias,
            },
    {
        match self {
            AhpAuthorizedTarget::Local { .. } => "local".to_owned(),
            AhpAuthorizedTarget::Ssh { alias, .. } => cat("ssh:", alias.as_str()),
        }
    }

    /// The path of the target.
    pub fn display_workspace(&self) -> (r: String)
        ensures
            match self@ {
                Target::Local { path } => r@ == path,
                Target::Ssh { path, .. } => r@ == path,
            },
    {
        match self {
            AhpAuthorizedTarget::Local { path } => path.clone(),
            AhpAuthorizedTarget::Ssh { path, .. } => path.clone(),
        }
    }

    /// Whether both targets are one workspace.
    pub fn matches(&self, other: &Self) -> (r: bool)
        ensures
            r == same_target(self@, other@),
    {
        match self {
            AhpAuthorizedTarget::Local { path: left } => match other {
                AhpAuthorizedTarget::Local { path: right } => path_is_within(
                    left.as_str(),
                    right.as_str(),
                ) && path_is_within(right.as_str(), left.as_str()),
                AhpAuthorizedTarget::Ssh { .. } => false,
            },
            AhpAuthorizedTarget::Ssh {
                alias: a,
                path: p,
                user: u,
                host: h,
                port: n,
                host_key_fingerprints: k,
            } => match other {
                AhpAuthorizedTarget::Local { .. } => false,
                AhpAuthorizedTarget::Ssh {
                    alias,
                    path,
                    user,
                    host,
                    port,
                    host_key_fingerprints,
                } => *a == *alias && *p == *path && *u == *user && *h == *host && *n == *port && same_texts(
                    k,
                    host_key_fingerprints,
                ),
            },
        }
    }

    /// A target of its own with the same data.
    pub fn duplicate(&self) -> (r: Self)
        ensures
            r@ == self@,
    {
        match self {
            AhpAuthorizedTarget::Local { path } => AhpAuthorizedTarget::Local { path: path.clone() },
            AhpAuthorizedTarget::Ssh { alias, path, user, host, port, host_key_fingerprints } =>
                AhpAuthorizedTarget::Ssh {
                alias: alias.clone(),
                path: path.clone(),
                user: user.clone(),
                host: host.clone(),
                port: *port,
                host_key_fingerprints: copy_texts(host_key_fingerprints),
            },
        }
    }
}

/// Whether the target is one of the list.
pub fn target_is_known(list: &Vec<AhpAuthorizedTarget>, target: &AhpAuthorizedTarget) -> (r: bool)
    ensures
        r == is_known(targets_of(list@), target@),
{
    let mut i: usize = 0;
    while i < list.len()
        invariant
            i <= list@.len(),
            forall|j: int|
                0 <= j < i ==> !same_target(#[trigger] targets_of(list@)[j], target@),
        decreases list@.len() - i,
    {
        if list[i].matches(target) {
            assert(same_target(targets_of(list@)[i as int], target@));
            return true;
        }
        i += 1;
    }
    false
}

fn push_target(list: &mut Vec<AhpAuthorizedTarget>, target: AhpAuthorizedTarget)
    ensures
        targets_of(final(list)@) == with_target(targets_of(old(list)@), target@),
{
    if !target_is_known(list, &target) {
        let ghost before = targets_of(list@);
        list.push(target);
        assert(targets_of(list@) =~= before.push(target@));
    }
}

impl AhpConfig {
    /// The targets in force as plain data.
    pub open spec fn targets_in_force(self) -> Seq<Target> {
        effective(targets_of(self.authorized_targets@), views(self.shared_workspaces@))
    }

    /// The targets in force: the authorized ones and, behind them, the shared
    /// workspaces that are not among them.
    pub fn effective_authorized_targets(&self) -> (r: Vec<AhpAuthorizedTarget>)
        ensures
            targets_of(r@) == self.targets_in_force(),
    {
        let mut r: Vec<AhpAuthorizedTarget> = Vec::new();
        let mut i: usize = 0;
        while i < self.authorized_targets.len()
            invariant
                i <= self.authorized_targets@.len(),
                r@.len() == i,
                forall|j: int|
                    0 <= j < i ==> (#[trigger] r@[j])@ == self.authorized_targets@[j]@,
            decreases self.authorized_targets@.len() - i,
        {
            r.push(self.authorized_targets[i].duplicate());
            i += 1;
        }
        let ghost base = targets_of(self.authorized_targets@);
        let ghost shared = views(self.shared_workspaces@);
        assert(targets_of(r@) =~= base);
        i = 0;
        assert(shared.take(0) =~= Seq::<Seq<char>>::empty());
        while i < self.shared_workspaces.len()
            invariant
                i <= self.shared_workspaces@.len(),
                shared == views(self.shared_workspaces@),
                targets_of(r@) == effective(base, shared.take(i as int)),
            decreases self.shared_workspaces@.len() - i,
        {
            assert(shared.take(i + 1).drop_last() =~= shared.take(i as int));
            let target = AhpAuthorizedTarget::local(self.shared_workspaces[i].clone());
            push_target(&mut r, target);
            i += 1;
        }
        assert(shared.take(i as int) =~= shared);
        r
    }

    /// Makes the authorized targets the targets in force, each once, and the
    /// shared workspaces the local ones among them.
    pub fn sync_authorized_targets(&mut self)
        ensures
            targets_of(final(self).authorized_targets@) == distinct(old(self).targets_in_force()),
            views(final(self).shared_workspaces@) == local_paths(
                distinct(old(self).targets_in_force()),
            ),
            final(self).same_but_targets(*old(self)),
    {
        let all = self.effective_authorized_targets();
        let ghost listed = targets_of(all@);
        let mut targets: Vec<AhpAuthorizedTarget> = Vec::new();
        let mut i: usize = 0;
        assert(targets_of(targets@) =~= distinct(listed.take(0)));
        while i < all.len()
            invariant
                i <= all@.len(),
                listed == targets_of(all@),
                targets_of(targets@) == distinct(listed.take(i as int)),
            decreases all@.len() - i,
        {
            assert(listed.take(i + 1).drop_last() =~= listed.take(i as int));
            push_target(&mut targets, all[i].duplicate());
            i += 1;
        }
        assert(listed.take(i as int) =~= listed);
        let ghost kept = targets_of(targets@);
        let mut shared: Vec<String> = Vec::new();
        i = 0;
        assert(views(shared@) =~= local_paths(kept.take(0)));
        while i < targets.len()
            invariant
                i <= targets@.len(),
                kept == targets_of(targets@),
                views(shared@) == local_paths(kept.take(i as int)),
            decreases targets@.len() - i,
        {
            assert(kept.take(i + 1).drop_last() =~= kept.take(i as int));
            assert(kept.take(i + 1).last() == targets@[i as int]@);
            match &targets[i] {
                AhpAuthorizedTarget::Local { path } => {
                    let ghost before = views(shared@);
                    shared.push(path.clone());
                    assert(views(shared@) =~= before.push(path@));
                },
                AhpAuthorizedTarget::Ssh { .. } => {},
            }
            i += 1;
        }
        assert(kept.take(i as int) =~= kept);
        self.authorized_targets = targets;
        self.shared_workspaces = shared;
    }

    /// Whether both agree on all but targets and shared workspaces.
    pub open spec fn same_but_targets(self, other: AhpConfig) -> bool {
        self == (AhpConfig {
            authorized_targets: self.authorized_targets,
            shared_workspaces: self.shared_workspaces,
            ..other
        })
    }
}

impl AhpConfig {
    /// Whether these are the settings that hold where none are given.
    pub open spec fn is_default(self) -> bool {
        &&& !self.enabled
        &&& self.shared_workspaces@.len() == 0
        &&& self.authorized_targets@.len() == 0
        &&& self.event_retention_days == 30
        &&& self.command_lease_seconds == 60
        &&& self.poll_seconds == 25
        &&& self.adapter_stale_seconds == 45
        &&& !self.adapter_auto_start
        &&& self.node_executable is None
        &&& self.adapter_script is None
        &&& self.code_executable is None
        &&& self.code_launcher is None
        &&& self.ssh_executable is None
        &&& self.tool_notification_mode == AhpToolNotificationMode::Compact
        &&& self.typing_indicator_enabled
        &&& self.typing_duration_seconds == 60
        &&& self.typing_refresh_seconds == 45
    }
}

impl Default for AhpConfig {
    fn default() -> (r: Self)
        ensures
            r.is_default(),
    {
        AhpConfig {
            enabled: false,
            shared_workspaces: Vec::new(),
            authorized_targets: Vec::new(),
            event_retention_days: default_ahp_event_retention_days(),
            command_lease_seconds: default_ahp_command_lease_seconds(),
            poll_seconds: default_ahp_poll_seconds(),
            adapter_stale_seconds: default_ahp_stale_seconds(),
            adapter_auto_start: false,
            node_executable: None,
            adapter_script: None,
            code_executable: None,
            code_launcher: None,
            ssh_executable: None,
            tool_notification_mode: AhpToolNotificationMode::Compact,
            typing_indicator_enabled: default_typing_indicator_enabled(),
            typing_duration_seconds: default_typing_duration_seconds(),
            typing_refresh_seconds: default_typing_refresh_seconds(),
        }
    }
}

impl Default for PolicyConfig {
    fn default() -> (r: Self)
        ensures
            views(r.auto_allow_tools@) == auto_allow_defaults(),
            views(r.approval_tools@) == approval_defaults(),
            views(r.approved_command_prefixes@) == command_defaults(),
    {
        PolicyConfig {
            auto_allow_tools: default_auto_allow_tools(),
            approval_tools: default_approval_tools(),
            approved_command_prefixes: default_command_prefixes(),
        }
    }
}

// ---------------------------------------------------------------------------
// Rules

/// The characters of a host's alias.
pub open spec fn alias_char(c: char) -> bool {
    is_alphanumeric(c) || c == '.' || c == '_' || c == '-'
}

/// Whether the text can be the alias of a host: not empty, not an option, not
/// too long, and of plain characters.
pub open spec fn valid_alias(s: Seq<char>) -> bool {
    s.len() > 0 && s[0] != '-' && encode_utf8(s).len() <= 255 && forall|i: int|
        0 <= i < s.len() ==> alias_char(#[trigger] s[i])
}

/// Whether the text can be the alias of a host.
pub fn alias_is_valid(alias: &str) -> (r: bool)
    ensures
        r == valid_alias(alias@),
{
    let s = chars_of(alias);
    if s.len() == 0 || s[0] == '-' || alias.as_bytes().len() > 255 {
        return false;
    }
    let mut i: usize = 0;
    while i < s.len()
        invariant
            s@ == alias@,
            i <= s@.len(),
            forall|j: int| 0 <= j < i ==> alias_char(#[trigger] s@[j]),
        decreases s@.len() - i,
    {
        let c = s[i];
        if !(char_is_alphanumeric(c) || c == '.' || c == '_' || c == '-') {
            assert(!alias_char(s@[i as int]));
            return false;
        }
        i += 1;
    }
    true
}

/// Whether the text is an absolute POSIX path without control characters.
pub open spec fn posix_path(s: Seq<char>) -> bool {
    s.len() > 0 && s[0] == '/' && forall|i: int| 0 <= i < s.len() ==> !is_control(#[trigger] s[i])
}

/// Whether the text is an absolute POSIX path without control characters.
pub fn is_posix_path(path: &str) -> (r: bool)
    ensures
        r == posix_path(path@),
{
    let s = chars_of(path);
    if s.len() == 0 || s[0] != '/' {
        return false;
    }
    let mut i: usize = 0;
    while i < s.len()
        invariant
            s@ == path@,
            i <= s@.len(),
            forall|j: int| 0 <= j < i ==> !is_control(#[trigger] s@[j]),
        decreases s@.len() - i,
    {
        if char_is_control(s[i]) {
            assert(is_control(s@[i as int]));
            return false;
        }
        i += 1;
    }
    true
}

/// Whether the text is the fingerprint of a host key.
pub open spec fn fingerprint(s: Seq<char>) -> bool {
    starts_with(s, "SHA256:"@) && forall|i: int| 0 <= i < s.len() ==> !is_white(#[trigger] s[i])
}

/// Whether the text is the fingerprint of a host key.
pub fn is_fingerprint(text: &str) -> (r: bool)
    ensures
        r == fingerprint(text@),
{
    if !text_starts_with(text, "SHA256:") {
        return false;
    }
    let s = chars_of(text);
    let mut i: usize = 0;
    while i < s.len()
        invariant
            s@ == text@,
            i <= s@.len(),
            forall|j: int| 0 <= j < i ==> !is_white(#[trigger] s@[j]),
        decreases s@.len() - i,
    {
        if char_is_white(s[i]) {
            assert(is_white(s@[i as int]));
            return false;
        }
        i += 1;
    }
    true
}

/// Whether the texts are fingerprints, and at least one.
pub open spec fn fingerprints(list: Seq<Seq<char>>) -> bool {
    list.len() > 0 && forall|i: int| 0 <= i < list.len() ==> fingerprint(#[trigger] list[i])
}

/// Whether the texts are fingerprints, and at least one.
pub fn are_fingerprints(list: &Vec<String>) -> (r: bool)
    ensures
        r == fingerprints(views(list@)),
{
    if list.len() == 0 {
        return false;
    }
    let mut i: usize = 0;
    while i < list.len()
        invariant
            i <= list@.len(),
            forall|j: int| 0 <= j < i ==> fingerprint(#[trigger] views(list@)[j]),
        decreases list@.len() - i,
    {
        if !is_fingerprint(list[i].as_str()) {
            assert(!fingerprint(views(list@)[i as int]));
            return false;
        }
        i += 1;
    }
    true
}

/// What is wrong with a target.
pub open spec fn target_fault(t: Target, roots: Seq<String>) -> Option<Seq<char>> {
    match t {
        Target::Local { path } => if !absolute(path) {
            Some("AHP local target paths must be absolute"@)
        } else if !within_any(path, roots) {
            Some("AHP target workspace "@ + path + " is outside bridge.workspace_roots"@)
        } else {
            None
        },
        Target::Ssh { alias, path, user, host, port, keys } => if !valid_alias(alias) {
            Some("AHP SSH target alias contains unsupported characters"@)
        } else if !posix_path(path) {
            Some("AHP SSH target path must be an absolute POSIX path"@)
        } else if trim(user).len() == 0 || trim(host).len() == 0 || port == 0 {
            Some("AHP SSH target identity is incomplete"@)
        } else if !fingerprints(keys) {
            Some("AHP SSH target host key fingerprints are invalid"@)
        } else {
            None
        },
    }
}

/// What is wrong with the first faulty target.
pub open spec fn targets_fault(ts: Seq<Target>, roots: Seq<String>) -> Option<Seq<char>>
    decreases ts.len(),
{
    if ts.len() == 0 {
        None
    } else {
        match target_fault(ts[0], roots) {
            Some(message) => Some(message),
            None => targets_fault(ts.skip(1), roots),
        }
    }
}

/// Whether a path is given and not absolute.
pub open spec fn given_relative(path: Option<String>) -> bool {
    match path {
        Some(p) => !absolute(p@),
        None => false,
    }
}

fn is_given_relative(path: &Option<String>) -> (r: bool)
    ensures
        r == given_relative(*path),
{
    match path {
        Some(p) => !is_absolute(p.as_str()),
        None => false,
    }
}

/// Whether one of the targets is remote.
pub open spec fn some_remote(ts: Seq<Target>) -> bool {
    exists|i: int| 0 <= i < ts.len() && (#[trigger] ts[i]) is Ssh
}

fn check_target(target: &AhpAuthorizedTarget, roots: &Vec<String>) -> (r: Option<Failure>)
    ensures
        match r {
            Some(f) => target_fault(target@, roots@) == Some(f.message@),
            None => target_fault(target@, roots@) is None,
        },
{
    match target {
        AhpAuthorizedTarget::Local { path } => {
            if !is_absolute(path.as_str()) {
                return Some(failure("AHP local target paths must be absolute"));
            }
            if !is_within_any(path.as_str(), roots.as_slice()) {
                let message = cat3(
                    "AHP target workspace ",
                    path.as_str(),
                    " is outside bridge.workspace_roots",
                );
                return Some(Failure { message });
            }
            None
        },
        AhpAuthorizedTarget::Ssh { alias, path, user, host, port, host_key_fingerprints } => {
            if !alias_is_valid(alias.as_str()) {
                return Some(failure("AHP SSH target alias contains unsupported characters"));
            }
            if !is_posix_path(path.as_str()) {
                return Some(failure("AHP SSH target path must be an absolute POSIX path"));
            }
            if is_blank(user.as_str()) || is_blank(host.as_str()) || *port == 0 {
                return Some(failure("AHP SSH target identity is incomplete"));
            }
            if !are_fingerprints(host_key_fingerprints) {
                return Some(failure("AHP SSH target host key fingerprints are invalid"));
            }
            None
        },
    }
}

impl AhpConfig {
    /// What is wrong with the settings of the agent hosts.
    pub open spec fn fault(self, roots: Seq<String>) -> Option<Seq<char>> {
        let targets = self.targets_in_force();
        if !self.enabled {
            None
        } else if targets_fault(targets, roots) is Some {
            targets_fault(targets, roots)
        } else if self.event_retention_days == 0 || self.command_lease_seconds == 0
            || self.poll_seconds == 0 || self.poll_seconds > 60 || self.adapter_stale_seconds == 0 {
            Some("AHP retention, lease, poll, and stale intervals must be non-zero"@)
        } else if self.adapter_auto_start && (self.node_executable is None || self.adapter_script
            is None || self.code_executable is None || self.code_launcher is None) {
            Some(
                "ahp.node_executable, ahp.adapter_script, ahp.code_executable, and ahp.code_launcher are required for auto-start"@,
            )
        } else if given_relative(self.node_executable) || given_relative(self.adapter_script)
            || given_relative(self.code_executable) || given_relative(self.code_launcher)
            || given_relative(self.ssh_executable) {
            Some("AHP executable and script paths must be absolute"@)
        } else if some_remote(targets) && self.ssh_executable is None {
            Some("ahp.ssh_executable is required when AHP SSH targets are configured"@)
        } else if self.typing_duration_seconds == 0 || self.typing_duration_seconds > 60
            || self.typing_refresh_seconds == 0 || self.typing_refresh_seconds
            >= self.typing_duration_seconds {
            Some("AHP typing duration/refresh settings are invalid"@)
        } else {
            None
        }
    }

    fn check(&self, roots: &Vec<String>) -> (r: Option<Failure>)
        ensures
            match r {
                Some(f) => self.fault(roots@) == Some(f.message@),
                None => self.fault(roots@) is None,
            },
    {
        if !self.enabled {
            return None;
        }
        let targets = self.effective_authorized_targets();
        let ghost ts = self.targets_in_force();
        let mut remote = false;
        let mut i: usize = 0;
        assert(ts.skip(0) =~= ts);
        while i < targets.len()
            invariant
                i <= targets@.len(),
                self.enabled,
                ts == self.targets_in_force(),
                ts == targets_of(targets@),
                targets_fault(ts, roots@) == targets_fault(ts.skip(i as int), roots@),
                remote == exists|j: int| 0 <= j < i && (#[trigger] ts[j]) is Ssh,
            decreases targets@.len() - i,
        {
            assert(ts.skip(i as int)[0] == targets@[i as int]@);
            assert(ts.skip(i as int).skip(1) =~= ts.skip(i + 1));
            let fault = check_target(&targets[i], roots);
            if fault.is_some() {
                return fault;
            }
            assert(ts[i as int] == targets@[i as int]@);
            match &targets[i] {
                AhpAuthorizedTarget::Ssh { .. } => {
                    remote = true;
                },
                AhpAuthorizedTarget::Local { .. } => {},
            }
            i += 1;
        }
        assert(remote == some_remote(ts));
        if self.event_retention_days == 0 || self.command_lease_seconds == 0 || self.poll_seconds
            == 0 || self.poll_seconds > 60 || self.adapter_stale_seconds == 0 {
            return Some(
                failure("AHP retention, lease, poll, and stale intervals must be non-zero"),
            );
        }
        if self.adapter_auto_start && (self.node_executable.is_none()
            || self.adapter_script.is_none() || self.code_executable.is_none()
            || self.code_launcher.is_none()) {
            return Some(
                failure(
                    "ahp.node_executable, ahp.adapter_script, ahp.code_executable, and ahp.code_launcher are required for auto-start",
                ),
            );
        }
        if is_given_relative(&self.node_executable) || is_given_relative(&self.adapter_script)
            || is_given_relative(&self.code_executable) || is_given_relative(&self.code_launcher)
            || is_given_relative(&self.ssh_executable) {
            return Some(failure("AHP executable and script paths must be absolute"));
        }
        if remote && self.ssh_executable.is_none() {
            return Some(
                failure("ahp.ssh_executable is required when AHP SSH targets are configured"),
            );
        }
        if self.typing_duration_seconds == 0 || self.typing_duration_seconds > 60
            || self.typing_refresh_seconds == 0 || self.typing_refresh_seconds
            >= self.typing_duration_seconds {
            return Some(failure("AHP typing duration/refresh settings are invalid"));
        }
        None
    }
}

/// Whether one of the paths is not absolute.
pub open spec fn some_relative(paths: Seq<String>) -> bool {
    exists|i: int| 0 <= i < paths.len() && !absolute((#[trigger] paths[i])@)
}

fn any_relative(paths: &Vec<String>) -> (r: bool)
    ensures
        r == some_relative(paths@),
{
    let mut i: usize = 0;
    while i < paths.len()
        invariant
            i <= paths@.len(),
            forall|j: int| 0 <= j < i ==> absolute((#[trigger] paths@[j])@),
        decreases paths@.len() - i,
    {
        if !is_absolute(paths[i].as_str()) {
            assert(!absolute(paths@[i as int]@));
            return true;
        }
        i += 1;
    }
    false
}

/// Whether the path starts with one of the places.
pub open spec fn starts_at_any(path: Seq<char>, places: Seq<String>) -> bool {
    exists|i: int| 0 <= i < places.len() && starts_at(path, (#[trigger] places[i])@)
}

fn is_started_by_any(path: &str, places: &Vec<String>) -> (r: bool)
    ensures
        r == starts_at_any(path@, places@),
{
    let mut i: usize = 0;
    while i < places.len()
        invariant
            i <= places@.len(),
            forall|j: int| 0 <= j < i ==> !starts_at(path@, (#[trigger] places@[j])@),
        decreases places@.len() - i,
    {
        if path_starts_at(path, places[i].as_str()) {
            assert(starts_at(path@, places@[i as int]@));
            return true;
        }
        i += 1;
    }
    false
}


/// The intent of messages sent to the bot.
pub const GROUP_AND_C2C_EVENT: u64 = 0x200_0000;

/// The intent of buttons pressed.
pub const INTERACTION: u64 = 0x400_0000;

/// What comes of the wish to keep a secret.
pub open spec fn storing_outcome(
    c: AppConfig,
    secret: Seq<char>,
    r: Result<(), Failure>,
) -> bool {
    match r {
        Ok(()) => c.qq.app_secret_source == AppSecretSource::CredentialManager && trim(
            secret,
        ).len() > 0,
        Err(f) => if c.qq.app_secret_source != AppSecretSource::CredentialManager {
            f.message@ == "qq.app_secret_source is not credential_manager"@
        } else {
            trim(secret).len() == 0 && f.message@ == "QQ AppSecret must not be empty"@
        },
    }
}

impl AppConfig {
    /// What is wrong with the configuration: the first rule that it breaks.
    pub open spec fn fault(self) -> Option<Seq<char>> {
        let b = self.bridge;
        if trim(b.pipe_name@).len() == 0 || contains(b.pipe_name@, "\\"@) || contains(
            b.pipe_name@,
            "/"@,
        ) {
            Some("bridge.pipe_name must be a non-empty pipe name, not a path"@)
        } else if encode_utf8(b.ipc_token@).len() < 64 {
            Some("bridge.ipc_token must contain at least 256 bits"@)
        } else if !absolute(b.database_path@) {
            Some("bridge.database_path must be absolute"@)
        } else if some_relative(b.workspace_roots@) {
            Some("all bridge.workspace_roots entries must be absolute"@)
        } else if b.approval_ttl_seconds == 0 || b.bridge_wait_seconds == 0 || b.bridge_wait_seconds
            > b.approval_ttl_seconds {
            Some("bridge wait must be non-zero and no longer than approval TTL"@)
        } else if b.message_chunk_chars == 0 || b.message_total_chars < b.message_chunk_chars {
            Some("message length limits are invalid"@)
        } else if self.qq.intents & GROUP_AND_C2C_EVENT == 0 {
            Some("qq.intents must include GROUP_AND_C2C_EVENT (1 << 25)"@)
        } else if self.qq.approval_buttons_enabled && self.qq.intents & INTERACTION == 0 {
            Some("QQ approval buttons require INTERACTION intent (1 << 26)"@)
        } else {
            self.ahp.fault(b.workspace_roots@)
        }
    }

    /// Whether the configuration keeps every rule; if not, the first that it
    /// breaks.
    pub fn validate(&self) -> (r: Result<(), Failure>)
        ensures
            match r {
                Ok(()) => self.fault() is None,
                Err(f) => self.fault() == Some(f.message@),
            },
    {
        let b = &self.bridge;
        if is_blank(b.pipe_name.as_str()) || text_contains(b.pipe_name.as_str(), "\\")
            || text_contains(b.pipe_name.as_str(), "/") {
            return Err(failure("bridge.pipe_name must be a non-empty pipe name, not a path"));
        }
        if b.ipc_token.as_str().as_bytes().len() < 64 {
            return Err(failure("bridge.ipc_token must contain at least 256 bits"));
        }
        if !is_absolute(b.database_path.as_str()) {
            return Err(failure("bridge.database_path must be absolute"));
        }
        if any_relative(&b.workspace_roots) {
            return Err(failure("all bridge.workspace_roots entries must be absolute"));
        }
        if b.approval_ttl_seconds == 0 || b.bridge_wait_seconds == 0 || b.bridge_wait_seconds
            > b.approval_ttl_seconds {
            return Err(failure("bridge wait must be non-zero and no longer than approval TTL"));
        }
        if b.message_chunk_chars == 0 || b.message_total_chars < b.message_chunk_chars {
            return Err(failure("message length limits are invalid"));
        }
        if self.qq.intents & GROUP_AND_C2C_EVENT == 0 {
            return Err(failure("qq.intents must include GROUP_AND_C2C_EVENT (1 << 25)"));
        }
        if self.qq.approval_buttons_enabled && self.qq.intents & INTERACTION == 0 {
            return Err(failure("QQ approval buttons require INTERACTION intent (1 << 26)"));
        }
        match self.ahp.check(&b.workspace_roots) {
            Some(f) => Err(f),
            None => Ok(()),
        }
    }

    /// Brings the targets into their normal form and checks the configuration,
    /// as is done on reading and before writing it.
    pub fn normalize(&mut self) -> (r: Result<(), Failure>)
        ensures
            final(self).bridge == old(self).bridge,
            final(self).qq == old(self).qq,
            final(self).policy == old(self).policy,
            final(self).ahp.same_but_targets(old(self).ahp),
            targets_of(final(self).ahp.authorized_targets@) == distinct(
                old(self).ahp.targets_in_force(),
            ),
            views(final(self).ahp.shared_workspaces@) == local_paths(
                distinct(old(self).ahp.targets_in_force()),
            ),
            match r {
                Ok(()) => final(self).fault() is None,
                Err(f) => final(self).fault() == Some(f.message@),
            },
    {
        self.ahp.sync_authorized_targets();
        self.validate()
    }

    /// What is wrong with the configuration of a daemon, as far as it can be
    /// told without looking at files.
    pub open spec fn daemon_fault(self) -> Option<Seq<char>> {
        let q = self.qq;
        if trim(q.app_id@).len() == 0 || q.app_id@ == "CHANGE_ME"@ {
            Some("qq.app_id is not configured"@)
        } else if q.app_secret_source == AppSecretSource::Environment && trim(
            q.app_secret_env@,
        ).len() == 0 {
            Some("qq.app_secret_env must be configured for the environment source"@)
        } else if q.app_secret_source == AppSecretSource::CredentialManager && trim(
            q.credential_service@,
        ).len() == 0 {
            Some("qq.credential_service must not be empty"@)
        } else if self.ahp.enabled && self.ahp.adapter_auto_start && self.ahp.node_executable
            is None {
            Some("AHP Node executable is not configured"@)
        } else if self.ahp.enabled && self.ahp.adapter_auto_start && self.ahp.adapter_script
            is None {
            Some("AHP Adapter script is not configured"@)
        } else {
            None
        }
    }

    /// What is wrong with the adapter's files. A script is installed outside
    /// the workspaces where its resolved path starts with no resolved root.
    pub open spec fn adapter_fault(
        self,
        node_is_file: bool,
        script_is_file: bool,
        script: Seq<char>,
        roots: Seq<String>,
    ) -> Option<Seq<char>> {
        if !(self.ahp.enabled && self.ahp.adapter_auto_start) {
            None
        } else if !node_is_file {
            Some("AHP Node executable does not exist"@)
        } else if !script_is_file {
            Some("AHP Adapter script does not exist"@)
        } else if starts_at_any(script, roots) {
            Some("AHP Adapter script must be installed outside Agent workspaces"@)
        } else {
            None
        }
    }

    /// Whether a daemon can run with the configuration. The caller says which
    /// of the adapter's files are there, and gives the resolved path of its
    /// script and of those workspace roots that resolve.
    pub fn validate_daemon(
        &self,
        node_is_file: bool,
        script_is_file: bool,
        script: &str,
        roots: &Vec<String>,
    ) -> (r: Result<(), Failure>)
        ensures
            match r {
                Ok(()) => self.daemon_fault() is None && self.adapter_fault(
                    node_is_file,
                    script_is_file,
                    script@,
                    roots@,
                ) is None,
                Err(f) => if self.daemon_fault() is Some {
                    self.daemon_fault() == Some(f.message@)
                } else {
                    self.adapter_fault(node_is_file, script_is_file, script@, roots@) == Some(
                        f.message@,
                    )
                },
            },
    {
        let q = &self.qq;
        if is_blank(q.app_id.as_str()) || str_eq(q.app_id.as_str(), "CHANGE_ME") {
            return Err(failure("qq.app_id is not configured"));
        }
        if q.app_secret_source == AppSecretSource::Environment && is_blank(
            q.app_secret_env.as_str(),
        ) {
            return Err(failure("qq.app_secret_env must be configured for the environment source"));
        }
        if q.app_secret_source == AppSecretSource::CredentialManager && is_blank(
            q.credential_service.as_str(),
        ) {
            return Err(failure("qq.credential_service must not be empty"));
        }
        if self.ahp.enabled && self.ahp.adapter_auto_start {
            if self.ahp.node_executable.is_none() {
                return Err(failure("AHP Node executable is not configured"));
            }
            if self.ahp.adapter_script.is_none() {
                return Err(failure("AHP Adapter script is not configured"));
            }
            if !node_is_file {
                return Err(failure("AHP Node executable does not exist"));
            }
            if !script_is_file {
                return Err(failure("AHP Adapter script does not exist"));
            }
            if is_started_by_any(script, roots) {
                return Err(
                    failure("AHP Adapter script must be installed outside Agent workspaces"),
                );
            }
        }
        Ok(())
    }

    /// The path of the pipe that hooks connect to.
    pub fn pipe_path(&self) -> (r: String)
        ensures
            r@ == "\\\\.\\pipe\\"@ + self.bridge.pipe_name@,
    {
        cat("\\\\.\\pipe\\", self.bridge.pipe_name.as_str())
    }

    /// Whether the secret may be stored; a refusal says why not.
    pub fn store_app_secret(&self, secret: &str) -> (r: Result<(), Failure>)
        ensures
            storing_outcome(*self, secret@, r),
    {
        if self.qq.app_secret_source != AppSecretSource::CredentialManager {
            return Err(failure("qq.app_secret_source is not credential_manager"));
        }
        if is_blank(secret) {
            return Err(failure("QQ AppSecret must not be empty"));
        }
        Ok(())
    }

    /// The configuration that a new installation starts with.
    pub fn generate(parent: &str, workspace_roots: Vec<String>) -> (r: AppConfig)
        ensures
            r.bridge.workspace_roots == workspace_roots,
            exists|token: Seq<u8>, suffix: Seq<u8>|
                token.len() == 32 && suffix.len() == 8 && #[trigger] r.is_new(
                    parent@,
                    token,
                    suffix,
                ),
    {
        let token = random_bytes(32);
        let suffix = random_bytes(8);
        AppConfig::from_random(parent, workspace_roots, &token, &suffix)
    }

    /// Whether this is the configuration of a new installation with that token
    /// and that pipe.
    pub open spec fn is_new(self, parent: Seq<char>, token: Seq<u8>, suffix: Seq<u8>) -> bool {
        &&& self.bridge.pipe_name@ == "copilot-qq-bridge-"@ + hex_text(suffix)
        &&& self.bridge.ipc_token@ == hex_text(token)
        &&& self.bridge.database_path@ == render(
            Parts { names: parse(parent).names.push("bridge.sqlite3"@), ..parse(parent) },
        )
        &&& self.bridge.approval_ttl_seconds == 600
        &&& self.bridge.bridge_wait_seconds == 600
        &&& self.bridge.bind_code_ttl_seconds == 600
        &&& self.bridge.question_ttl_seconds == 600
        &&& self.bridge.message_chunk_chars == 1800
        &&& self.bridge.message_total_chars == 6000
        &&& self.bridge.messages_per_minute == 20
        &&& self.bridge.messages_per_day == 500
        &&& self.bridge.audit_retention_days == 30
        &&& self.qq.app_id@ == "CHANGE_ME"@
        &&& self.qq.app_secret_source == AppSecretSource::CredentialManager
        &&& self.qq.app_secret_env@ == "QQ_BOT_APP_SECRET"@
        &&& self.qq.credential_service@ == "qq-copilot-remote"@
        &&& self.qq.token_endpoint@ == "https://api.bot.qq.com/app/getAppAccessToken"@
        &&& self.qq.api_base@ == "https://api.bot.qq.com"@
        &&& self.qq.gateway_endpoint@ == "https://api.bot.qq.com/gateway"@
        &&& self.qq.intents == GROUP_AND_C2C_EVENT
        &&& self.qq.token_refresh_skew_seconds == 60
        &&& !self.qq.approval_buttons_enabled
        &&& !self.qq.voice_input_enabled
        &&& self.ahp.is_default()
        &&& views(self.policy.auto_allow_tools@) == auto_allow_defaults()
        &&& views(self.policy.approval_tools@) == approval_defaults()
        &&& views(self.policy.approved_command_prefixes@) == command_defaults()
    }

    /// The configuration of a new installation with that token and that pipe.
    pub fn from_random(
        parent: &str,
        workspace_roots: Vec<String>,
        token: &Vec<u8>,
        suffix: &Vec<u8>,
    ) -> (r: AppConfig)
        ensures
            r.bridge.workspace_roots == workspace_roots,
            r.is_new(parent@, token@, suffix@),
    {
        let tail = hex_encode(suffix.as_slice());
        AppConfig {
            bridge: BridgeConfig {
                pipe_name: cat("copilot-qq-bridge-", tail.as_str()),
                ipc_token: hex_encode(token.as_slice()),
                database_path: child_path(parent, "bridge.sqlite3"),
                workspace_roots,
                approval_ttl_seconds: default_approval_ttl_seconds(),
                bridge_wait_seconds: default_bridge_wait_seconds(),
                bind_code_ttl_seconds: default_bind_code_ttl_seconds(),
                question_ttl_seconds: default_question_ttl_seconds(),
                message_chunk_chars: default_chunk_chars(),
                message_total_chars: default_total_chars(),
                messages_per_minute: default_per_minute_limit(),
                messages_per_day: default_daily_limit(),
                audit_retention_days: default_audit_retention_days(),
            },
            qq: QqConfig {
                app_id: "CHANGE_ME".to_owned(),
                app_secret_source: AppSecretSource::CredentialManager,
                app_secret_env: default_app_secret_env(),
                credential_service: default_credential_service(),
                token_endpoint: default_token_endpoint(),
                api_base: default_api_base(),
                gateway_endpoint: default_gateway_endpoint(),
                intents: default_intents(),
                token_refresh_skew_seconds: default_token_refresh_skew_seconds(),
                approval_buttons_enabled: false,
                voice_input_enabled: false,
            },
            ahp: AhpConfig::default(),
            policy: PolicyConfig::default(),
        }
    }
}

/// What comes of looking for the secret, given what was found.
pub open spec fn secret_outcome(
    c: AppConfig,
    found: Option<String>,
    r: Result<String, Failure>,
) -> bool {
    match found {
        Some(secret) => match r {
            Ok(s) => s == secret && trim(secret@).len() > 0,
            Err(f) => trim(secret@).len() == 0 && f.message@ == "QQ AppSecret is empty"@,
        },
        None => r matches Err(f) && f.message@ == (match c.qq.app_secret_source {
            AppSecretSource::CredentialManager => "QQ AppSecret was not found in Windows Credential Manager; run `qq-bridge store-secret` with the same --config path"@,
            AppSecretSource::Environment => "environment variable "@
                + c.qq.app_secret_env@ + " is not set"@,
        }),
    }
}

impl AppConfig {
    /// The secret, as it was found in the place that the configuration names.
    pub fn app_secret(&self, found: Option<String>) -> (r: Result<String, Failure>)
        ensures
            secret_outcome(*self, found, r),
    {
        match found {
            Some(secret) => {
                if is_blank(secret.as_str()) {
                    return Err(failure("QQ AppSecret is empty"));
                }
                Ok(secret)
            },
            None => match self.qq.app_secret_source {
                AppSecretSource::CredentialManager => Err(
                    failure(
                        "QQ AppSecret was not found in Windows Credential Manager; run `qq-bridge store-secret` with the same --config path",
                    ),
                ),
                AppSecretSource::Environment => {
                    let message = cat3(
                        "environment variable ",
                        self.qq.app_secret_env.as_str(),
                        " is not set",
                    );
                    Err(failure(message.as_str()))
                },
            },
        }
    }
}

/// Whether what was read back is the secret that was stored.
pub fn verify_stored_secret(secret: &str, stored: &str) -> (r: Result<(), Failure>)
    ensures
        match r {
            Ok(()) => stored@ == secret@,
            Err(f) => stored@ != secret@ && f.message@
                == "QQ AppSecret verification failed after storage"@,
        },
{
    if !str_eq(stored, secret) {
        return Err(failure("QQ AppSecret verification failed after storage"));
    }
    Ok(())
}

/// Where the configuration lies, from two environment variables.
pub fn default_config_path(explicit: Option<String>, local_app_data: Option<String>) -> (r: Result<
    String,
    Failure,
>)
    ensures
        match explicit {
            Some(path) => r == Ok::<String, Failure>(path),
            None => match local_app_data {
                Some(base) => r matches Ok(path) && path@ == render(
                    Parts {
                        names: parse(base@).names.push("CopilotQQBridge"@).push("config.toml"@),
                        ..parse(base@)
                    },
                ),
                None => r matches Err(f) && f.message@ == "LOCALAPPDATA is not set"@,
            },
        },
{
    match explicit {
        Some(path) => Ok(path),
        None => match local_app_data {
            Some(base) => {
                let mut p = crate::paths::parse_path(base.as_str());
                let ghost before = p.names@;
                p.names.push("CopilotQQBridge".to_owned());
                p.names.push("config.toml".to_owned());
                assert(views(p.names@) =~= views(before).push("CopilotQQBridge"@).push(
                    "config.toml"@,
                ));
                Ok(crate::paths::path_text(&p))
            },
            None => Err(failure("LOCALAPPDATA is not set")),
        },
    }
}

/// How much is told of a session's tools.
#[derive(Clone, Copy, Debug, PartialEq, Eq, Structural)]
pub enum AhpToolNotificationMode {
    Full,
    Compact,
    ApprovalOnly,
}

impl AhpToolNotificationMode {
    /// The name under which the value is written.
    pub open spec fn label(self) -> Seq<char> {
        match self {
            AhpToolNotificationMode::Full => "full"@,
            AhpToolNotificationMode::Compact => "compact"@,
            AhpToolNotificationMode::ApprovalOnly => "approval_only"@,
        }
    }

    /// The name under which the value is written.
    pub fn as_str(self) -> (r: &'static str)
        ensures
            r@ == self.label(),
    {
        match self {
            AhpToolNotificationMode::Full => "full",
            AhpToolNotificationMode::Compact => "compact",
            AhpToolNotificationMode::ApprovalOnly => "approval_only",
        }
    }

    /// The value of that name, whatever the case of its letters.
    pub fn from_str(value: &str) -> (r: Result<AhpToolNotificationMode, ()>)
        ensures
            match r {
                Ok(k) => k.label() == lower(value@),
                Err(()) => forall|k: AhpToolNotificationMode| #[trigger] k.label() != lower(value@),
            },
    {
        let low = to_lower(value);
        if str_eq(low.as_str(), "full") {
            return Ok(AhpToolNotificationMode::Full);
        }
        if str_eq(low.as_str(), "compact") {
            return Ok(AhpToolNotificationMode::Compact);
        }
        if str_eq(low.as_str(), "approval_only") {
            return Ok(AhpToolNotificationMode::ApprovalOnly);
        }
        assert forall|k: AhpToolNotificationMode| #[trigger] k.label() != lower(value@) by {
            match k {
                AhpToolNotificationMode::Full => {},
                AhpToolNotificationMode::Compact => {},
                AhpToolNotificationMode::ApprovalOnly => {},
            }
        }
        Err(())
    }
}

/// Two values of `AhpToolNotificationMode` with one name are one value.
pub proof fn ahp_tool_notification_mode_names_are_distinct(a: AhpToolNotificationMode, b: AhpToolNotificationMode)
    requires
        a.label() == b.label(),
    ensures
        a == b,
{
    reveal_strlit("full");
    reveal_strlit("compact");
    reveal_strlit("approval_only");
    assert("full"@.len() != "compact"@.len());
    assert("full"@.len() != "approval_only"@.len());
    assert("compact"@.len() != "approval_only"@.len());
}

impl std::str::FromStr for AhpToolNotificationMode {
    type Err = ();

    fn from_str(value: &str) -> Result<Self, ()> {
        AhpToolNotificationMode::from_str(value)
    }
}

impl Default for AhpToolNotificationMode {
    fn default() -> (r: Self)
        ensures
            r == AhpToolNotificationMode::Compact,
    {
        AhpToolNotificationMode::Compact
    }
}

// ---------------------------------------------------------------------------
// Defaults

/// How long an approval stays open.
pub fn default_approval_ttl_seconds() -> (r: u64)
    ensures
        r == 600,
{
    600
}

/// How long a hook waits for an approval.
pub fn default_bridge_wait_seconds() -> (r: u64)
    ensures
        r == 600,
{
    600
}

/// How long a binding code is good.
pub fn default_bind_code_ttl_seconds() -> (r: u64)
    ensures
        r == 600,
{
    600
}

/// How long a question stays open.
pub fn default_question_ttl_seconds() -> (r: u64)
    ensures
        r == 600,
{
    600
}

/// The longest single message.
pub fn default_chunk_chars() -> (r: usize)
    ensures
        r == 1800,
{
    1800
}

/// The longest text that is split into messages.
pub fn default_total_chars() -> (r: usize)
    ensures
        r == 6000,
{
    6000
}

/// How many messages go out in a minute.
pub fn default_per_minute_limit() -> (r: u32)
    ensures
        r == 20,
{
    20
}

/// How many messages go out in a day.
pub fn default_daily_limit() -> (r: u32)
    ensures
        r == 500,
{
    500
}

/// How long audit events are kept.
pub fn default_audit_retention_days() -> (r: u32)
    ensures
        r == 30,
{
    30
}

/// The environment variable that holds the secret.
pub fn default_app_secret_env() -> (r: String)
    ensures
        r@ == "QQ_BOT_APP_SECRET"@,
{
    "QQ_BOT_APP_SECRET".to_owned()
}

/// The service under which the secret is stored.
pub fn default_credential_service() -> (r: String)
    ensures
        r@ == "qq-copilot-remote"@,
{
    "qq-copilot-remote".to_owned()
}

/// Where access tokens are issued.
pub fn default_token_endpoint() -> (r: String)
    ensures
        r@ == "https://api.bot.qq.com/app/getAppAccessToken"@,
{
    "https://api.bot.qq.com/app/getAppAccessToken".to_owned()
}

/// Where messages are sent.
pub fn default_api_base() -> (r: String)
    ensures
        r@ == "https://api.bot.qq.com"@,
{
    "https://api.bot.qq.com".to_owned()
}

/// Where the gateway's address is asked for.
pub fn default_gateway_endpoint() -> (r: String)
    ensures
        r@ == "https://api.bot.qq.com/gateway"@,
{
    "https://api.bot.qq.com/gateway".to_owned()
}

/// The events that the gateway is asked for.
pub fn default_intents() -> (r: u64)
    ensures
        r == 0x200_0000,
{
    0x200_0000
}

/// How long before its end a token is renewed.
pub fn default_token_refresh_skew_seconds() -> (r: u64)
    ensures
        r == 60,
{
    60
}

/// How long session events are kept.
pub fn default_ahp_event_retention_days() -> (r: u32)
    ensures
        r == 30,
{
    30
}

/// How long a command is leased to an adapter.
pub fn default_ahp_command_lease_seconds() -> (r: u64)
    ensures
        r == 60,
{
    60
}

/// How long an adapter's poll waits.
pub fn default_ahp_poll_seconds() -> (r: u64)
    ensures
        r == 25,
{
    25
}

/// After what silence an adapter is stale.
pub fn default_ahp_stale_seconds() -> (r: u64)
    ensures
        r == 45,
{
    45
}

/// Whether the typing indicator is shown.
pub fn default_typing_indicator_enabled() -> (r: bool)
    ensures
        r == true,
{
    true
}

/// How long a typing indicator lasts.
pub fn default_typing_duration_seconds() -> (r: u8)
    ensures
        r == 60,
{
    60
}

/// After how long a typing indicator is renewed.
pub fn default_typing_refresh_seconds() -> (r: u8)
    ensures
        r == 45,
{
    45
}

/// The tools that need no approval.
pub open spec fn auto_allow_defaults() -> Seq<Seq<char>> {
    seq![
        "view"@,
        "rg"@,
        "glob"@,
        "oraios-serena-find-declaration"@,
        "oraios-serena-find-implementations"@,
        "oraios-serena-find-referencing-symbols"@,
        "oraios-serena-find-symbol"@,
        "oraios-serena-get-diagnostics-for-file"@,
        "oraios-serena-get-symbols-overview"@,
        "qq_send_progress"@,
        "qq_send_final"@,
        "qq_ask_user"@,
        "qq_wait_for_message"@,
        "mcp_qq-copilot-re_qq_send_progress"@,
        "mcp_qq-copilot-re_qq_send_final"@,
        "mcp_qq-copilot-re_qq_ask_user"@,
        "mcp_qq-copilot-re_qq_wait_for_message"@,
    ]
}

/// The tools that need no approval.
pub fn default_auto_allow_tools() -> (r: Vec<String>)
    ensures
        views(r@) == auto_allow_defaults(),
{
    let mut r: Vec<String> = Vec::new();
    r.push("view".to_owned());
    r.push("rg".to_owned());
    r.push("glob".to_owned());
    r.push("oraios-serena-find-declaration".to_owned());
    r.push("oraios-serena-find-implementations".to_owned());
    r.push("oraios-serena-find-referencing-symbols".to_owned());
    r.push("oraios-serena-find-symbol".to_owned());
    r.push("oraios-serena-get-diagnostics-for-file".to_owned());
    r.push("oraios-serena-get-symbols-overview".to_owned());
    r.push("qq_send_progress".to_owned());
    r.push("qq_send_final".to_owned());
    r.push("qq_ask_user".to_owned());
    r.push("qq_wait_for_message".to_owned());
    r.push("mcp_qq-copilot-re_qq_send_progress".to_owned());
    r.push("mcp_qq-copilot-re_qq_send_final".to_owned());
    r.push("mcp_qq-copilot-re_qq_ask_user".to_owned());
    r.push("mcp_qq-copilot-re_qq_wait_for_message".to_owned());
    assert(views(r@) =~= auto_allow_defaults());
    r
}

/// The tools that need an approval.
pub open spec fn approval_defaults() -> Seq<Seq<char>> {
    seq![
        "apply_patch"@,
        "powershell"@,
        "web_fetch"@,
        "web_search"@,
        "oraios-serena-insert-after-symbol"@,
        "oraios-serena-insert-before-symbol"@,
        "oraios-serena-rename-symbol"@,
        "oraios-serena-replace-content"@,
        "oraios-serena-replace-in-files"@,
        "oraios-serena-replace-symbol-body"@,
        "oraios-serena-safe-delete-symbol"@,
    ]
}

/// The tools that need an approval.
pub fn default_approval_tools() -> (r: Vec<String>)
    ensures
        views(r@) == approval_defaults(),
{
    let mut r: Vec<String> = Vec::new();
    r.push("apply_patch".to_owned());
    r.push("powershell".to_owned());
    r.push("web_fetch".to_owned());
    r.push("web_search".to_owned());
    r.push("oraios-serena-insert-after-symbol".to_owned());
    r.push("oraios-serena-insert-before-symbol".to_owned());
    r.push("oraios-serena-rename-symbol".to_owned());
    r.push("oraios-serena-replace-content".to_owned());
    r.push("oraios-serena-replace-in-files".to_owned());
    r.push("oraios-serena-replace-symbol-body".to_owned());
    r.push("oraios-serena-safe-delete-symbol".to_owned());
    assert(views(r@) =~= approval_defaults());
    r
}

/// The commands that can be approved.
pub open spec fn command_defaults() -> Seq<Seq<char>> {
    seq![
        "cargo check"@,
        "cargo clippy"@,
        "cargo fmt"@,
        "cargo test"@,
        "dotnet build"@,
        "dotnet test"@,
        "go test"@,
        "npm run build"@,
        "npm run lint"@,
        "npm test"@,
        "pnpm build"@,
        "pnpm lint"@,
        "pnpm test"@,
    ]
}

/// The commands that can be approved.
pub fn default_command_prefixes() -> (r: Vec<String>)
    ensures
        views(r@) == command_defaults(),
{
    let mut r: Vec<String> = Vec::new();
    r.push("cargo check".to_owned());
    r.push("cargo clippy".to_owned());
    r.push("cargo fmt".to_owned());
    r.push("cargo test".to_owned());
    r.push("dotnet build".to_owned());
    r.push("dotnet test".to_owned());
    r.push("go test".to_owned());
    r.push("npm run build".to_owned());
    r.push("npm run lint".to_owned());
    r.push("npm test".to_owned());
    r.push("pnpm build".to_owned());
    r.push("pnpm lint".to_owned());
    r.push("pnpm test".to_owned());
    assert(views(r@) =~= command_defaults());
    r
}

// ---------------------------------------------------------------------------
// Laws

/// Being one workspace is an equivalence.
pub proof fn same_target_is_an_equivalence(a: Target, b: Target, c: Target)
    ensures
        same_target(a, a),
        same_target(a, b) ==> same_target(b, a),
        same_target(a, b) && same_target(b, c) ==> same_target(a, c),
{
    match (a, b, c) {
        (Target::Local { path: p }, Target::Local { path: q }, Target::Local { path: s }) => {
            crate::paths::within_is_reflexive(p);
            if within(p, q) && within(q, s) {
                crate::paths::within_is_transitive(p, q, s);
            }
            if within(s, q) && within(q, p) {
                crate::paths::within_is_transitive(s, q, p);
            }
        },
        _ => {
            match a {
                Target::Local { path } => {
                    crate::paths::within_is_reflexive(path);
                },
                _ => {},
            }
        },
    }
}

/// Whether no two of the targets are one workspace.
pub open spec fn pairwise_distinct(ts: Seq<Target>) -> bool {
    forall|i: int, j: int|
        0 <= i < j < ts.len() ==> !same_target(#[trigger] ts[i], #[trigger] ts[j])
}

/// No workspace occurs twice among the distinct targets.
pub proof fn distinct_targets_differ(ts: Seq<Target>)
    ensures
        pairwise_distinct(distinct(ts)),
    decreases ts.len(),
{
    if ts.len() > 0 {
        distinct_targets_differ(ts.drop_last());
    }
}

/// Every target is kept, or one that is the same workspace.
pub proof fn distinct_loses_nothing(ts: Seq<Target>, i: int)
    requires
        0 <= i < ts.len(),
    ensures
        is_known(distinct(ts), ts[i]),
    decreases ts.len(),
{
    let before = distinct(ts.drop_last());
    same_target_is_an_equivalence(ts.last(), ts.last(), ts.last());
    if i < ts.len() - 1 {
        distinct_loses_nothing(ts.drop_last(), i);
        let k = choose|k: int| 0 <= k < before.len() && same_target(#[trigger] before[k], ts[i]);
        assert(distinct(ts)[k] == before[k]);
    } else {
        if is_known(before, ts.last()) {
        } else {
            assert(distinct(ts)[before.len() as int] == ts.last());
        }
    }
}

proof fn lemma_distinct_fixed(ts: Seq<Target>)
    requires
        pairwise_distinct(ts),
    ensures
        distinct(ts) == ts,
    decreases ts.len(),
{
    if ts.len() > 0 {
        lemma_distinct_fixed(ts.drop_last());
        assert forall|i: int| 0 <= i < ts.drop_last().len() implies !same_target(
            #[trigger] ts.drop_last()[i],
            ts.last(),
        ) by {
            assert(!same_target(ts[i], ts[ts.len() - 1]));
        }
        assert(ts =~= ts.drop_last().push(ts.last()));
    }
}

proof fn lemma_locals_are_known(ts: Seq<Target>, base: Seq<Target>)
    requires
        forall|i: int| 0 <= i < ts.len() ==> is_known(base, #[trigger] ts[i]),
    ensures
        effective(base, local_paths(ts)) == base,
    decreases ts.len(),
{
    if ts.len() > 0 {
        assert forall|i: int| 0 <= i < ts.drop_last().len() implies is_known(
            base,
            #[trigger] ts.drop_last()[i],
        ) by {
            assert(ts.drop_last()[i] == ts[i]);
        }
        lemma_locals_are_known(ts.drop_last(), base);
        match ts.last() {
            Target::Local { path } => {
                let ps = local_paths(ts.drop_last());
                assert(ps.push(path).drop_last() =~= ps);
                assert(is_known(base, ts[ts.len() - 1]));
            },
            Target::Ssh { .. } => {},
        }
    }
}

/// Bringing the targets into their normal form a second time changes nothing.
pub proof fn sync_is_idempotent(targets: Seq<Target>, shared: Seq<Seq<char>>)
    ensures
        ({
            let once = distinct(effective(targets, shared));
            effective(once, local_paths(once)) == once && distinct(once) == once
        }),
{
    let once = distinct(effective(targets, shared));
    distinct_targets_differ(effective(targets, shared));
    lemma_distinct_fixed(once);
    assert forall|i: int| 0 <= i < once.len() implies is_known(once, #[trigger] once[i]) by {
        same_target_is_an_equivalence(once[i], once[i], once[i]);
    }
    lemma_locals_are_known(once, once);
}

/// The token of a new installation is 64 characters long.
pub proof fn new_token_is_strong(config: AppConfig, parent: Seq<char>, token: Seq<u8>, suffix: Seq<u8>)
    requires
        config.is_new(parent, token, suffix),
        token.len() == 32,
    ensures
        config.bridge.ipc_token@.len() == 64,
{
}

} // verus!
