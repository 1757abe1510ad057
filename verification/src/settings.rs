//! What settings have to be like, and what becomes of the workspaces that sessions may be
//! run in.
use vstd::prelude::*;
use vstd::string::*;
use vstd::utf8::encode_utf8;

use crate::config::{
    effective, fingerprints, is_known, local_paths, posix_path, same_target, target_fault,
    targets_fault, valid_alias, AhpAuthorizedTarget, AhpConfig, AppConfig, AppSecretSource, Failure,
    Target,
};
use crate::json::{get_tree, number_tree, Tree};
use crate::paths::{absolute, normal, within, within_is_reflexive};
use crate::security::within_any;
use crate::targets::{
    endpoints, first_at, followed_names, has_target, has_usable, is_authorized, is_rooted,
    is_usable_endpoint, local_outcome, not_on, remote_command, remote_outcome, same_place, same_uri,
    same_workspace, ssh_lines, ssh_words, with_buttons, with_places, with_roots, FileUri, Resolved,
};
use crate::text::{contains, occurs_at, parsed, trim, views};

verus! {

broadcast use vstd::string::group_string_axioms;

// ---------------------------------------------------------------------------
// Rules

/// A text holds a text of one character where one of its characters is that character.
proof fn lemma_contains_char(s: Seq<char>, p: Seq<char>, c: char)
    requires
        p.len() == 1,
        p[0] == c,
    ensures
        contains(s, p) <==> exists|i: int| 0 <= i < s.len() && #[trigger] s[i] == c,
{
    if contains(s, p) {
        let i = choose|i: int| occurs_at(s, p, i);
        assert(s.subrange(i, i + 1)[0] == c);
        assert(s[i] == c);
    }
    if exists|i: int| 0 <= i < s.len() && #[trigger] s[i] == c {
        let i = choose|i: int| 0 <= i < s.len() && #[trigger] s[i] == c;
        assert(s.subrange(i, i + 1) =~= p);
        assert(occurs_at(s, p, i));
    }
}

/// Just those settings can be used whose pipe has a name and no path, whose token is long
/// enough, whose paths are absolute, whose times and lengths fit together, and which ask
/// the gateway for what they need.
pub proof fn settings_keep_the_rules(c: AppConfig)
    ensures
        c.fault() is None <==> {
            let b = c.bridge;
            &&& trim(b.pipe_name@).len() > 0
            &&& forall|i: int|
                0 <= i < b.pipe_name@.len() ==> #[trigger] b.pipe_name@[i] != '\\' && b.pipe_name@[i]
                    != '/'
            &&& encode_utf8(b.ipc_token@).len() >= 64
            &&& absolute(b.database_path@)
            &&& forall|i: int|
                0 <= i < b.workspace_roots@.len() ==> absolute((#[trigger] b.workspace_roots@[i])@)
            &&& 0 < b.bridge_wait_seconds <= b.approval_ttl_seconds
            &&& 0 < b.message_chunk_chars <= b.message_total_chars
            &&& c.qq.intents & 0x200_0000u64 != 0
            &&& c.qq.approval_buttons_enabled ==> c.qq.intents & 0x400_0000u64 != 0
            &&& c.ahp.fault(b.workspace_roots@) is None
        },
{
    let name = c.bridge.pipe_name@;
    reveal_strlit("\\");
    reveal_strlit("/");
    lemma_contains_char(name, "\\"@, '\\');
    lemma_contains_char(name, "/"@, '/');
}

/// Whether sessions may be run in the target, as far as it can be told from the target.
pub open spec fn is_sound(t: Target, roots: Seq<String>) -> bool {
    match t {
        Target::Local { path } => absolute(path) && exists|i: int|
            0 <= i < roots.len() && within(path, (#[trigger] roots[i])@),
        Target::Ssh { alias, path, user, host, port, keys } => {
            &&& valid_alias(alias)
            &&& posix_path(path)
            &&& trim(user).len() > 0
            &&& trim(host).len() > 0
            &&& port > 0
            &&& fingerprints(keys)
        },
    }
}

proof fn lemma_sound(t: Target, roots: Seq<String>)
    ensures
        target_fault(t, roots) is None <==> is_sound(t, roots),
{
    match t {
        Target::Local { path } => {
            if within_any(path, roots) {
                let i = choose|i: int| 0 <= i < roots.len() && within(path, (#[trigger] roots[i])@);
                assert(within(path, roots[i]@));
            }
        },
        _ => {},
    }
}

proof fn lemma_all_sound(ts: Seq<Target>, roots: Seq<String>)
    ensures
        targets_fault(ts, roots) is None <==> forall|i: int|
            0 <= i < ts.len() ==> is_sound(#[trigger] ts[i], roots),
    decreases ts.len(),
{
    if ts.len() > 0 {
        lemma_sound(ts[0], roots);
        lemma_all_sound(ts.skip(1), roots);
        if targets_fault(ts, roots) is None {
            assert forall|i: int| 0 <= i < ts.len() implies is_sound(#[trigger] ts[i], roots) by {
                if i > 0 {
                    assert(ts.skip(1)[i - 1] == ts[i]);
                }
            }
        }
        if forall|i: int| 0 <= i < ts.len() ==> is_sound(#[trigger] ts[i], roots) {
            assert(is_sound(ts[0], roots));
            assert forall|i: int| 0 <= i < ts.skip(1).len() implies is_sound(
                #[trigger] ts.skip(1)[i],
                roots,
            ) by {
                assert(ts.skip(1)[i] == ts[i + 1]);
            }
        }
    }
}

/// The settings of agent hosts can be used where they are switched off, or where each
/// workspace is sound, the times are given and fit together, and the programs that are
/// needed are named by absolute paths.
pub proof fn host_settings_keep_the_rules(c: AhpConfig, roots: Seq<String>)
    ensures
        c.fault(roots) is None <==> !c.enabled || {
            &&& forall|i: int|
                0 <= i < c.targets_in_force().len() ==> is_sound(
                    #[trigger] c.targets_in_force()[i],
                    roots,
                )
            &&& c.event_retention_days > 0
            &&& c.command_lease_seconds > 0
            &&& 0 < c.poll_seconds <= 60
            &&& c.adapter_stale_seconds > 0
            &&& c.adapter_auto_start ==> c.node_executable is Some && c.adapter_script is Some
                && c.code_executable is Some && c.code_launcher is Some
            &&& c.node_executable matches Some(p) ==> absolute(p@)
            &&& c.adapter_script matches Some(p) ==> absolute(p@)
            &&& c.code_executable matches Some(p) ==> absolute(p@)
            &&& c.code_launcher matches Some(p) ==> absolute(p@)
            &&& c.ssh_executable matches Some(p) ==> absolute(p@)
            &&& c.ssh_executable is Some || forall|i: int|
                0 <= i < c.targets_in_force().len() ==> (#[trigger] c.targets_in_force()[i])
                    is Local
            &&& 0 < c.typing_refresh_seconds < c.typing_duration_seconds <= 60
        },
{
    lemma_all_sound(c.targets_in_force(), roots);
}

/// A daemon needs the identifier of its bot, a place to find its secret and, where it
/// starts the adapter, the programs for that.
pub proof fn daemons_need_their_settings(c: AppConfig)
    ensures
        c.daemon_fault() is None <==> {
            &&& trim(c.qq.app_id@).len() > 0
            &&& c.qq.app_id@ != "CHANGE_ME"@
            &&& c.qq.app_secret_source == AppSecretSource::Environment ==> trim(
                c.qq.app_secret_env@,
            ).len() > 0
            &&& c.qq.app_secret_source == AppSecretSource::CredentialManager ==> trim(
                c.qq.credential_service@,
            ).len() > 0
            &&& c.ahp.enabled && c.ahp.adapter_auto_start ==> c.ahp.node_executable is Some
                && c.ahp.adapter_script is Some
        },
{
}

/// An alias is made of plain characters, is not empty, and cannot be taken for an option;
/// a path on a remote host begins at its root and holds no control characters; a
/// fingerprint begins with the name of its kind and holds no white space.
pub proof fn names_are_plain(s: Seq<char>, keys: Seq<Seq<char>>)
    ensures
        valid_alias(s) ==> s.len() > 0 && s[0] != '-' && forall|i: int|
            0 <= i < s.len() ==> {
                let c = #[trigger] s[i];
                ('0' <= c <= '9') || ('a' <= c <= 'z') || ('A' <= c <= 'Z') || c == '.' || c == '_'
                    || c == '-'
            },
        s.len() > 0 && s[0] != '-' && encode_utf8(s).len() <= 255 && (forall|i: int|
            0 <= i < s.len() ==> {
                let c = #[trigger] s[i];
                ('0' <= c <= '9') || ('a' <= c <= 'z') || ('A' <= c <= 'Z') || c == '.' || c == '_'
                    || c == '-'
            }) ==> valid_alias(s),
        posix_path(s) ==> s.len() > 0 && s[0] == '/' && forall|i: int|
            0 <= i < s.len() ==> #[trigger] s[i] != '\n' && s[i] != '\0' && s[i] != '\r',
        fingerprints(keys) ==> keys.len() > 0 && forall|i: int|
            0 <= i < keys.len() ==> (#[trigger] keys[i]).len() >= 7 && keys[i][0] == 'S'
                && keys[i][6] == ':',
{
    if fingerprints(keys) {
        reveal_strlit("SHA256:");
        assert forall|i: int| 0 <= i < keys.len() implies (#[trigger] keys[i]).len() >= 7
            && keys[i][0] == 'S' && keys[i][6] == ':' by {
            let k = keys[i];
            assert(occurs_at(k, "SHA256:"@, 0));
            assert(k.subrange(0, 7)[0] == k[0]);
            assert(k.subrange(0, 7)[6] == k[6]);
        }
    }
}

// ---------------------------------------------------------------------------
// Workspaces

/// The workspaces in force are those that are authorized, in their places, and the shared
/// ones that are not among them; there are no others.
pub proof fn shared_workspaces_are_in_force(targets: Seq<Target>, shared: Seq<Seq<char>>)
    ensures
        effective(targets, shared).len() >= targets.len(),
        effective(targets, shared).take(targets.len() as int) == targets,
        forall|i: int|
            0 <= i < shared.len() ==> is_known(
                effective(targets, shared),
                (Target::Local { path: #[trigger] shared[i] }),
            ),
        forall|k: int|
            targets.len() <= k < effective(targets, shared).len() ==> (
            #[trigger] effective(targets, shared)[k]) is Local && shared.contains(
                effective(targets, shared)[k]->Local_path,
            ),
    decreases shared.len(),
{
    let all = effective(targets, shared);
    if shared.len() > 0 {
        let rest = shared.drop_last();
        let before = effective(targets, rest);
        shared_workspaces_are_in_force(targets, rest);
        assert(all.take(targets.len() as int) =~= targets) by {
            assert(before.take(targets.len() as int) == targets);
            assert forall|i: int| 0 <= i < targets.len() implies all[i] == targets[i] by {
                assert(before.take(targets.len() as int)[i] == before[i]);
            }
        }
        assert forall|i: int| 0 <= i < shared.len() implies is_known(
            all,
            (Target::Local { path: #[trigger] shared[i] }),
        ) by {
            let t = Target::Local { path: shared[i] };
            if i < rest.len() {
                assert(rest[i] == shared[i]);
                let k = choose|k: int| 0 <= k < before.len() && same_target(#[trigger] before[k], t);
                assert(all[k] == before[k]);
            } else {
                within_is_reflexive(shared[i]);
                if !is_known(before, t) {
                    assert(all[before.len() as int] == t);
                    assert(same_target(t, t));
                }
            }
        }
        assert forall|k: int| targets.len() <= k < all.len() implies (#[trigger] all[k]) is Local
            && shared.contains(all[k]->Local_path) by {
            if k < before.len() {
                assert(all[k] == before[k]);
                let p = before[k]->Local_path;
                let i = choose|i: int| 0 <= i < rest.len() && rest[i] == p;
                assert(shared[i] == p);
            } else {
                assert(shared[shared.len() - 1] == shared.last());
            }
        }
    } else {
        assert(targets.take(targets.len() as int) =~= targets);
    }
}

/// The paths of the local workspaces are told in their order, and no others.
pub proof fn local_workspaces_are_told(targets: Seq<Target>, t: Target)
    ensures
        t matches Target::Local { path } ==> local_paths(targets.push(t)) == local_paths(
            targets,
        ).push(path),
        t is Ssh ==> local_paths(targets.push(t)) == local_paths(targets),
        local_paths(Seq::empty()).len() == 0,
{
    assert(targets.push(t).drop_last() =~= targets);
}

/// Two local workspaces are one where their paths come to the same; two remote ones only
/// where all that is known of them is equal; a local one is never a remote one.
pub proof fn workspaces_are_told_apart(p: Seq<char>, q: Seq<char>, a: Target, b: Target)
    ensures
        normal(p) == normal(q) ==> same_target((Target::Local { path: p }), Target::Local { path: q }),
        !within(p, q) ==> !same_target((Target::Local { path: p }), Target::Local { path: q }),
        a is Ssh && b is Ssh ==> (same_target(a, b) <==> a == b),
        a is Local && b is Ssh ==> !same_target(a, b) && !same_target(b, a),
{
    within_is_reflexive(p);
}

/// A workspace that was registered is one that sessions may be run in, and lies within a
/// root; no other workspace comes or goes.
pub proof fn registered_workspaces_can_be_used(
    a: AppConfig,
    b: AppConfig,
    database_path: Seq<char>,
    workspace: Seq<char>,
    was_authorized: bool,
    disk: Seq<Resolved>,
    r: Result<(), Failure>,
)
    requires
        local_outcome(a, b, database_path, workspace, was_authorized, disk, r),
    ensures
        r is Err ==> b == a,
        r is Ok ==> a.ahp.enabled && b.ahp.enabled,
        r is Ok ==> is_authorized(disk, b.ahp.authorized_targets@, workspace),
        r is Ok ==> exists|i: int|
            0 <= i < b.bridge.workspace_roots@.len() && within(
                workspace,
                (#[trigger] views(b.bridge.workspace_roots@)[i]),
            ),
        r is Ok ==> a.ahp.authorized_targets@.len() <= b.ahp.authorized_targets@.len()
            <= a.ahp.authorized_targets@.len() + 1,
        r is Ok ==> forall|i: int|
            0 <= i < a.ahp.authorized_targets@.len() ==> #[trigger] b.ahp.authorized_targets@[i]
                == a.ahp.authorized_targets@[i],
        r is Ok ==> b.ahp.shared_workspaces == a.ahp.shared_workspaces,
        was_authorized && !is_authorized(disk, a.ahp.authorized_targets@, workspace) ==> r is Err,
        !a.ahp.enabled ==> r is Err,
{
    if r is Ok {
        let roots = views(a.bridge.workspace_roots@);
        let then = views(b.bridge.workspace_roots@);
        within_is_reflexive(workspace);
        if is_rooted(roots, workspace) {
            assert(with_roots(roots, seq![workspace], 0) == roots);
            assert(then == roots);
        } else {
            assert(with_roots(roots, seq![workspace], 0) == roots);
            assert(then == roots.push(workspace));
            assert(then[roots.len() as int] == workspace);
        }
        if !is_authorized(disk, a.ahp.authorized_targets@, workspace) {
            let n = a.ahp.authorized_targets@.len();
            let t = b.ahp.authorized_targets@[n as int];
            assert(t@ == (Target::Local { path: workspace }));
            assert(same_place(disk, workspace, workspace)) by {
                match crate::targets::leads_to(disk, workspace) {
                    Some(x) => {
                        within_is_reflexive(x);
                    },
                    None => {},
                }
            }
            assert(crate::targets::is_at(disk, t, workspace));
        }
    }
}

/// A remote workspace that was registered is one that sessions may be run in; no other
/// workspace comes or goes.
pub proof fn registered_remote_workspaces_can_be_used(
    a: AppConfig,
    b: AppConfig,
    database_path: Seq<char>,
    original: Option<Target>,
    target: Target,
    r: Result<(), Failure>,
)
    requires
        remote_outcome(a, b, database_path, original, target, r),
    ensures
        r is Err ==> b == a,
        r is Ok ==> a.ahp.enabled,
        r is Ok ==> has_target(b.ahp.authorized_targets@, target),
        r is Ok ==> forall|i: int|
            0 <= i < a.ahp.authorized_targets@.len() ==> #[trigger] b.ahp.authorized_targets@[i]
                == a.ahp.authorized_targets@[i],
        r is Ok ==> b.bridge == a.bridge && b.ahp.shared_workspaces == a.ahp.shared_workspaces,
        (original matches Some(t) && !has_target(a.ahp.authorized_targets@, t)) ==> r is Err,
        !a.ahp.enabled ==> r is Err,
{
    if r is Ok && !has_target(a.ahp.authorized_targets@, target) {
        let n = a.ahp.authorized_targets@.len();
        crate::config::same_target_is_an_equivalence(target, target, target);
        assert(b.ahp.authorized_targets@[n as int]@ == target);
    }
}

/// A remote workspace that was taken away is gone, and the others stay.
pub proof fn removed_remote_workspaces_are_gone(
    targets: Seq<AhpAuthorizedTarget>,
    alias: Seq<char>,
    workspace: Seq<char>,
    i: int,
)
    requires
        0 <= i < targets.len(),
    ensures
        targets.filter(not_on(alias, workspace)).contains(targets[i]) <==> !(
        targets[i]@ matches Target::Ssh { alias: a, path, .. } && a == alias && path == workspace),
{
    let p = not_on(alias, workspace);
    let kept = targets.filter(p);
    if p(targets[i]) {
        targets.lemma_filter_contains(p, i);
    }
    if kept.contains(targets[i]) {
        let k = choose|k: int| 0 <= k < kept.len() && kept[k] == targets[i];
        targets.lemma_filter_pred(p, k);
    }
}

/// Each workspace that is added is in the list afterwards, or one that leads to the same
/// place; what was in the list stays where it was.
pub proof fn added_workspaces_are_listed(
    disk: Seq<Resolved>,
    list: Seq<Seq<char>>,
    more: Seq<Seq<char>>,
    n: nat,
)
    requires
        n <= more.len(),
    ensures
        with_places(disk, list, more, n).len() >= list.len(),
        with_places(disk, list, more, n).take(list.len() as int) == list,
        forall|i: int|
            0 <= i < n ==> crate::targets::is_placed(
                disk,
                with_places(disk, list, more, n),
                #[trigger] more[i],
            ),
        with_roots(list, more, n).len() >= list.len(),
        with_roots(list, more, n).take(list.len() as int) == list,
        forall|i: int| 0 <= i < n ==> is_rooted(with_roots(list, more, n), #[trigger] more[i]),
    decreases n,
{
    if n == 0 {
        assert(list.take(list.len() as int) =~= list);
    } else {
        let m = (n - 1) as nat;
        added_workspaces_are_listed(disk, list, more, m);
        let places = with_places(disk, list, more, m);
        let all = with_places(disk, list, more, n);
        assert(all.take(list.len() as int) =~= places.take(list.len() as int));
        assert forall|i: int| 0 <= i < n implies crate::targets::is_placed(
            disk,
            all,
            #[trigger] more[i],
        ) by {
            if i < m {
                let k = choose|k: int|
                    0 <= k < places.len() && same_place(disk, #[trigger] places[k], more[i]);
                assert(all[k] == places[k]);
            } else if !crate::targets::is_placed(disk, places, more[i]) {
                assert(all[places.len() as int] == more[i]);
                within_is_reflexive(more[i]);
                match crate::targets::leads_to(disk, more[i]) {
                    Some(x) => {
                        within_is_reflexive(x);
                    },
                    None => {},
                }
                assert(same_place(disk, more[i], more[i]));
            }
        }
        let roots = with_roots(list, more, m);
        let wide = with_roots(list, more, n);
        assert(wide.take(list.len() as int) =~= roots.take(list.len() as int));
        assert forall|i: int| 0 <= i < n implies is_rooted(wide, #[trigger] more[i]) by {
            if i < m {
                let k = choose|k: int| 0 <= k < roots.len() && within(more[i], #[trigger] roots[k]);
                assert(wide[k] == roots[k]);
            } else if !is_rooted(roots, more[i]) {
                assert(wide[roots.len() as int] == more[i]);
                within_is_reflexive(more[i]);
            }
        }
    }
}

/// The intent for buttons is added, and no other intent changes.
pub proof fn buttons_are_asked_for(intents: u64)
    ensures
        with_buttons(intents) & 0x400_0000u64 != 0,
        with_buttons(intents) & !0x400_0000u64 == intents & !0x400_0000u64,
{
    assert((intents | (1u64 << 26)) & 0x400_0000u64 != 0) by (bit_vector);
    assert((intents | (1u64 << 26)) & !0x400_0000u64 == intents & !0x400_0000u64) by (bit_vector);
}

// ---------------------------------------------------------------------------
// Remote hosts

/// On a remote host `..` leads back by one name, but not beyond the root; `.` and an empty
/// name lead nowhere.
pub proof fn remote_paths_are_followed(parts: Seq<Seq<char>>, name: Seq<char>)
    ensures
        name.len() > 0 && name != "."@ && name != ".."@ ==> followed_names(parts.push(name))
            == followed_names(parts).push(name),
        name.len() > 0 && name != "."@ && name != ".."@ ==> followed_names(
            parts.push(name).push(".."@),
        ) == followed_names(parts),
        followed_names(parts.push("."@)) == followed_names(parts),
        followed_names(parts.push(Seq::empty())) == followed_names(parts),
        followed_names(parts).len() == 0 ==> followed_names(parts.push(".."@)).len() == 0,
{
    reveal_strlit(".");
    reveal_strlit("..");
    assert("."@.len() == 1 && ".."@.len() == 2);
    let one = parts.push(name);
    assert(one.drop_last() =~= parts);
    assert(one.push(".."@).drop_last() =~= one);
    assert(parts.push("."@).drop_last() =~= parts);
    assert(parts.push(".."@).drop_last() =~= parts);
    assert(parts.push(Seq::<char>::empty()).drop_last() =~= parts);
    if name.len() > 0 && name != "."@ && name != ".."@ {
        assert(followed_names(one).drop_last() =~= followed_names(parts));
    }
}

/// A remote host is reached without questions being asked and only where its key is known;
/// its alias stands before the command, and nothing behind it.
pub proof fn remote_hosts_are_reached_safely(alias: Seq<char>, args: Seq<Seq<char>>)
    ensures
        ssh_words(alias, args).len() == 9,
        ssh_words(alias, args)[7] == alias,
        ssh_words(alias, args)[8] == remote_command(args),
        is_option(ssh_words(alias, args), "StrictHostKeyChecking=yes"@),
        is_option(ssh_words(alias, args), "BatchMode=yes"@),
{
    let w = ssh_words(alias, args);
    assert(w[2] == "BatchMode=yes"@);
    assert(w[4] == "StrictHostKeyChecking=yes"@);
}

/// Whether the text is among the first of the words as the value of an option.
pub open spec fn is_option(words: Seq<Seq<char>>, text: Seq<char>) -> bool {
    exists|i: int| 0 < i < 7 && i < words.len() && #[trigger] words[i] == text && words[i - 1] == "-o"@
}

/// The last line that names the user, the host or the port decides which it is.
pub proof fn the_last_word_on_a_host_counts(all: Seq<Seq<char>>, n: nat, k: int)
    requires
        0 <= k < n <= all.len(),
        ssh_lines(all, n) is Some,
        crate::targets::line_words(all[k]).len() >= 2,
        forall|i: int|
            k < i < n ==> crate::targets::line_words(#[trigger] all[i]).len() < 2
                || crate::targets::line_words(all[i])[0] != crate::targets::line_words(all[k])[0],
    ensures
        ({
            let w = crate::targets::line_words(all[k]);
            let seen = ssh_lines(all, n)->0;
            &&& w[0] == "user"@ ==> seen.user == Some(w[1])
            &&& w[0] == "hostname"@ ==> seen.host == Some(w[1])
            &&& w[0] == "port"@ ==> seen.port == parsed(w[1], 65535) && seen.port is Some
        }),
    decreases n,
{
    reveal_strlit("user");
    reveal_strlit("hostname");
    reveal_strlit("port");
    assert("user"@[0] == 'u' && "hostname"@[0] == 'h' && "port"@[0] == 'p');
    if k < n - 1 {
        assert(ssh_lines(all, (n - 1) as nat) is Some);
        the_last_word_on_a_host_counts(all, (n - 1) as nat, k);
    }
}

/// What is looked for is found where it first stands.
pub proof fn the_first_place_is_found(s: Seq<char>, pattern: Seq<char>, from: int)
    requires
        0 <= from,
    ensures
        first_at(s, pattern, from) matches Some(i) ==> from <= i && occurs_at(s, pattern, i)
            && forall|j: int| from <= j < i ==> !#[trigger] occurs_at(s, pattern, j),
        first_at(s, pattern, from) is None ==> forall|j: int|
            from <= j ==> !#[trigger] occurs_at(s, pattern, j),
    decreases s.len() + 1 - from,
{
    if from <= s.len() && !occurs_at(s, pattern, from) {
        the_first_place_is_found(s, pattern, from + 1);
    }
}

/// An endpoint can be used where it is one of its own, of the second form, and speaks a
/// version that is known.
pub proof fn usable_endpoints_are_found(t: Tree, ts: Seq<Tree>, i: int)
    requires
        endpoints(t) == Some(ts),
        0 <= i < ts.len(),
        ts[i] is Object,
    ensures
        number_tree(get_tree(ts[i], "schemaVersion"@)) == Some(2nat) && get_tree(ts[i], "type"@)
            == Some(Tree::Text("standalone"@)) && get_tree(ts[i], "protocolVersion"@) == Some(
            Tree::Text("1.0.0"@),
        ) ==> has_usable(ts),
        get_tree(ts[i], "type"@) != Some(Tree::Text("standalone"@)) ==> !is_usable_endpoint(ts[i]),
        number_tree(get_tree(ts[i], "schemaVersion"@)) != Some(2nat) ==> !is_usable_endpoint(ts[i]),
{
    if is_usable_endpoint(ts[i]) {
        assert(has_usable(ts));
    }
}

/// An address is that of its own workspace; addresses of different kinds never are those
/// of one workspace, and neither are addresses on different hosts.
pub proof fn addresses_are_told_apart(
    disk: Seq<Resolved>,
    files: Seq<FileUri>,
    a: Seq<char>,
    x: (Seq<char>, Option<Seq<char>>, Seq<char>),
    y: (Seq<char>, Option<Seq<char>>, Seq<char>),
    same_file: bool,
)
    ensures
        same_uri(disk, files, a, a),
        x.0 != y.0 ==> !same_workspace(x, y, same_file),
        x.0 == "file"@ && y.0 == "file"@ ==> (same_workspace(x, y, same_file) <==> same_file),
        x.0 != "file"@ && x.0 != "vscode-remote"@ ==> !same_workspace(x, y, same_file),
        x.0 == "vscode-remote"@ && crate::targets::decoded_host(x.1)
            != crate::targets::decoded_host(y.1) ==> !same_workspace(x, y, same_file),
        x.0 == "vscode-remote"@ && crate::targets::decoded_path(x.2)
            != crate::targets::decoded_path(y.2) ==> !same_workspace(x, y, same_file),
        x.0 == "vscode-remote"@ && x == y ==> same_workspace(x, y, same_file),
{
    reveal_strlit("file");
    reveal_strlit("vscode-remote");
    assert("file"@.len() != "vscode-remote"@.len());
}

/// A workspace on this machine that is taken away is gone, with each that leads to the
/// same place; remote workspaces and other places stay.
pub proof fn removed_local_workspaces_are_gone(
    a: AppConfig,
    b: AppConfig,
    workspace: Seq<char>,
    disk: Seq<Resolved>,
    r: usize,
    i: int,
    j: int,
)
    requires
        crate::targets::local_removed(a, b, workspace, disk, r),
        0 <= i < a.ahp.authorized_targets@.len(),
        0 <= j < a.ahp.shared_workspaces@.len(),
    ensures
        ({
            let t = a.ahp.authorized_targets@[i];
            let s = a.ahp.shared_workspaces@[j];
            &&& t matches AhpAuthorizedTarget::Local { path } ==> (
            b.ahp.authorized_targets@.contains(t) <==> !same_place(disk, path@, workspace))
            &&& t is Ssh ==> b.ahp.authorized_targets@.contains(t)
            &&& b.ahp.shared_workspaces@.contains(s) <==> !same_place(disk, s@, workspace)
        }),
        b.bridge == a.bridge,
        b.qq == a.qq,
        b.policy == a.policy,
        b.ahp.targets_in_force().len() <= a.ahp.targets_in_force().len() ==> r
            == a.ahp.targets_in_force().len() - b.ahp.targets_in_force().len(),
{
    let ts = a.ahp.authorized_targets@;
    let ss = a.ahp.shared_workspaces@;
    lemma_kept(ts, crate::targets::elsewhere(disk, workspace), i);
    lemma_kept(ss, crate::targets::other_path(disk, workspace), j);
}

proof fn lemma_kept<T>(s: Seq<T>, p: spec_fn(T) -> bool, i: int)
    requires
        0 <= i < s.len(),
    ensures
        s.filter(p).contains(s[i]) <==> p(s[i]),
{
    let kept = s.filter(p);
    if p(s[i]) {
        s.lemma_filter_contains(p, i);
    }
    if kept.contains(s[i]) {
        let k = choose|k: int| 0 <= k < kept.len() && kept[k] == s[i];
        s.lemma_filter_pred(p, k);
    }
}

/// Remote workspaces are taken away where their path is one that can be used; it is told
/// how many there were.
pub proof fn remote_workspaces_are_taken_away(
    a: AppConfig,
    b: AppConfig,
    alias: Seq<char>,
    workspace: Seq<char>,
    r: Result<usize, Failure>,
    i: int,
)
    requires
        crate::targets::remote_removed(a, b, alias, workspace, r),
        0 <= i < a.ahp.authorized_targets@.len(),
    ensures
        r is Ok <==> posix_path(workspace),
        r is Err ==> b == a,
        r matches Ok(n) ==> n == a.ahp.authorized_targets@.len() - b.ahp.authorized_targets@.len(),
        r is Ok ==> (b.ahp.authorized_targets@.contains(a.ahp.authorized_targets@[i]) <==> !(
        a.ahp.authorized_targets@[i]@ matches Target::Ssh { alias: x, path, .. } && x == alias
            && path == crate::targets::posix_normal(workspace))),
        b.ahp.shared_workspaces == a.ahp.shared_workspaces,
        b.qq == a.qq,
{
    if r is Ok {
        let p = not_on(alias, crate::targets::posix_normal(workspace));
        removed_remote_workspaces_are_gone(
            a.ahp.authorized_targets@,
            alias,
            crate::targets::posix_normal(workspace),
            i,
        );
        a.ahp.authorized_targets@.lemma_filter_len(p);
    }
}

/// What a remote host says of itself is read from between its marks: the fingerprints of
/// its keys from behind the first, and the path from behind the second.
pub proof fn remote_hosts_tell_who_they_are(
    s: Seq<char>,
    i: int,
    j: int,
    r: Result<crate::targets::RemoteIdentity, Failure>,
)
    requires
        crate::targets::identity_outcome(s, r),
        occurs_at(s, "__QQ_HOST_KEYS__\n"@, i),
        forall|k: int| 0 <= k < i ==> !#[trigger] occurs_at(s, "__QQ_HOST_KEYS__\n"@, k),
        i + 17 <= j,
        occurs_at(s, "\n__QQ_CANONICAL_PATH__\n"@, j),
        forall|k: int|
            i + 17 <= k < j ==> !#[trigger] occurs_at(s, "\n__QQ_CANONICAL_PATH__\n"@, k),
    ensures
        ({
            let keys = crate::targets::key_lines(s.subrange(i + 17, j));
            &&& r is Ok <==> fingerprints(keys)
            &&& r matches Ok(x) ==> x.canonical_path@ == trim(s.skip(j + 23)) && forall|
                key: Seq<char>,
            | #[trigger]
                views(x.host_key_fingerprints@).contains(key) <==> keys.contains(key)
        }),
{
    reveal_strlit("__QQ_HOST_KEYS__\n");
    reveal_strlit("\n__QQ_CANONICAL_PATH__\n");
    the_first_place_is_found(s, "__QQ_HOST_KEYS__\n"@, 0);
    the_first_place_is_found(s, "\n__QQ_CANONICAL_PATH__\n"@, i + 17);
    match first_at(s, "__QQ_HOST_KEYS__\n"@, 0) {
        Some(k) => {
            assert(!(i < k));
            assert(!(k < i));
        },
        None => {},
    }
    match first_at(s, "\n__QQ_CANONICAL_PATH__\n"@, i + 17) {
        Some(k) => {
            assert(!(j < k));
            assert(!(k < j));
        },
        None => {},
    }
}

/// A host is known by its user, its name and its port; where one of them is not told, it
/// is not known.
pub proof fn hosts_are_known_by_what_is_told(
    text: Seq<char>,
    r: Result<crate::targets::SshHost, Failure>,
)
    requires
        crate::targets::ssh_outcome(text, r),
    ensures
        ({
            let all = crate::text::lines(text);
            let told = ssh_lines(all, all.len());
            &&& r is Ok <==> (told matches Some(seen) && seen.user is Some && seen.host is Some
                && seen.port is Some)
            &&& r matches Ok(x) ==> Some(x.user@) == told->0.user && Some(x.host@) == told->0.host
                && Some(x.port as nat) == told->0.port
        }),
{
}

/// The addresses of the requests for workspaces that are told of are all there, and no
/// others.
pub proof fn reported_requests_are_found(
    disk: Seq<Resolved>,
    files: Seq<FileUri>,
    requests: Seq<crate::wizard::AhpTrustRequestRecord>,
    reported: Seq<Seq<char>>,
    n: nat,
    i: int,
)
    requires
        0 <= i < n <= requests.len(),
    ensures
        (exists|k: int|
            0 <= k < reported.len() && same_uri(
                disk,
                files,
                requests[i].workspace_uri@,
                #[trigger] reported[k],
            )) ==> crate::targets::reported_uris(disk, files, requests, reported, n).contains(
            requests[i].workspace_uri@,
        ),
        forall|u: Seq<char>| #[trigger]
            crate::targets::reported_uris(disk, files, requests, reported, n).contains(u)
                ==> exists|k: int|
                0 <= k < reported.len() && same_uri(disk, files, u, #[trigger] reported[k]),
    decreases n,
{
    let list = crate::targets::reported_uris(disk, files, requests, reported, n);
    let before = crate::targets::reported_uris(disk, files, requests, reported, (n - 1) as nat);
    let last = requests[n - 1].workspace_uri@;
    if n > 1 {
        reported_requests_are_found(
            disk,
            files,
            requests,
            reported,
            (n - 1) as nat,
            if i < n - 1 {
                i
            } else {
                0
            },
        );
    } else {
        assert(before =~= Seq::empty());
    }
    assert forall|u: Seq<char>| #[trigger] list.contains(u) implies exists|k: int|
        0 <= k < reported.len() && same_uri(disk, files, u, #[trigger] reported[k]) by {
        if u != last || !crate::targets::is_reported(disk, files, reported, last) {
            let at = choose|at: int| 0 <= at < list.len() && list[at] == u;
            assert(before[at] == u);
            assert(before.contains(u));
        }
    }
    if crate::targets::is_reported(disk, files, reported, last) {
        assert(list[list.len() - 1] == last);
        if before.contains(requests[i].workspace_uri@) {
            let at = choose|at: int| 0 <= at < before.len() && before[at]
                == requests[i].workspace_uri@;
            assert(list[at] == requests[i].workspace_uri@);
        }
    }
}

/// The first workspace on a host is found by the host's alias.
pub proof fn hosts_are_found_by_alias(targets: Seq<AhpAuthorizedTarget>, alias: Seq<char>, i: int)
    requires
        0 <= i < targets.len(),
        targets[i]@ matches Target::Ssh { alias: a, .. } && a == alias,
        forall|k: int|
            0 <= k < i ==> !((#[trigger] targets[k])@ matches Target::Ssh { alias: a, .. } && a
                == alias),
    ensures
        crate::targets::first_aliased(targets, alias) == Some(targets[i]@),
    decreases targets.len(),
{
    if i > 0 {
        let rest = targets.skip(1);
        assert(targets[0]@ == targets[0]@);
        assert(!crate::targets::is_aliased(targets[0], alias));
        assert(rest[i - 1] == targets[i]);
        assert forall|k: int| 0 <= k < i - 1 implies !((#[trigger] rest[k])@ matches Target::Ssh {
            alias: a,
            ..
        } && a == alias) by {
            assert(rest[k] == targets[k + 1]);
        }
        hosts_are_found_by_alias(rest, alias, i - 1);
    }
}

/// An adapter that is to be started needs its program and its script, and the script may
/// lie in no workspace.
pub proof fn adapters_are_started_from_outside(
    c: AppConfig,
    node: bool,
    script_is_file: bool,
    script: Seq<char>,
    roots: Seq<String>,
)
    ensures
        c.adapter_fault(node, script_is_file, script, roots) is None <==> (!c.ahp.enabled
            || !c.ahp.adapter_auto_start || (node && script_is_file && forall|i: int|
            0 <= i < roots.len() ==> !crate::paths::starts_at(script, (#[trigger] roots[i])@))),
{
}

/// A secret is kept only where it is to be kept, and where there is one.
pub proof fn secrets_are_kept(c: AppConfig, secret: Seq<char>, r: Result<(), Failure>)
    requires
        crate::config::storing_outcome(c, secret, r),
    ensures
        r is Ok <==> c.qq.app_secret_source is CredentialManager && trim(secret).len() > 0,
{
}

/// The secret that was found is used, unless it is blank.
pub proof fn secrets_are_found(c: AppConfig, found: Option<String>, r: Result<String, Failure>)
    requires
        crate::config::secret_outcome(c, found, r),
    ensures
        r is Ok <==> (found matches Some(s) && trim(s@).len() > 0),
        r is Ok ==> found == Some(r->Ok_0),
        found is None && c.qq.app_secret_source is Environment ==> (r matches Err(f) && contains(
            f.message@,
            c.qq.app_secret_env@,
        )),
{
    if found is None && c.qq.app_secret_source is Environment {
        let head = "environment variable "@;
        let name = c.qq.app_secret_env@;
        let all = head + name + " is not set"@;
        assert(all.subrange(head.len() as int, (head.len() + name.len()) as int) =~= name);
        assert(occurs_at(all, name, head.len() as int));
    }
}

/// The value of a great hexadecimal digit.
pub open spec fn digit_value(c: char) -> int {
    if c <= '9' {
        c as int - 48
    } else {
        c as int - 55
    }
}

/// A byte of an address is written as itself where it is a letter, a digit or one of four
/// marks, and else as a percent sign and the two digits of its value.
pub proof fn bytes_are_written_in_addresses(bytes: Seq<u8>, b: u8)
    ensures
        ({
            let before = crate::urls::percent_encoded(bytes);
            let all = crate::urls::percent_encoded(bytes.push(b));
            let plain = ('0' as int <= b <= '9' as int) || ('A' as int <= b <= 'Z' as int) || (
            'a' as int <= b <= 'z' as int) || b == '-' as int || b == '.' as int || b == '_' as int
                || b == '~' as int;
            &&& plain ==> all == before.push(b as char)
            &&& !plain ==> all.len() == before.len() + 3 && all.take(before.len() as int) == before
                && all[before.len() as int] == '%' && b == 16 * digit_value(
                all[before.len() as int + 1],
            ) + digit_value(all[before.len() as int + 2])
        }),
        crate::urls::percent_encoded(Seq::empty()) == Seq::<char>::empty(),
{
    assert(bytes.push(b).drop_last() =~= bytes);
    assert(crate::urls::percent_encoded(bytes.push(b)).take(
        crate::urls::percent_encoded(bytes).len() as int,
    ) =~= crate::urls::percent_encoded(bytes));
}

/// An address loses the slashes at its end, and nothing else.
pub proof fn only_slashes_are_lost(s: Seq<char>)
    ensures
        ({
            let t = crate::qq::without_slashes(s);
            &&& t.is_prefix_of(s)
            &&& t.len() > 0 ==> t.last() != '/'
            &&& forall|i: int| t.len() <= i < s.len() ==> #[trigger] s[i] == '/'
        }),
    decreases s.len(),
{
    if s.len() > 0 && s.last() == '/' {
        only_slashes_are_lost(s.drop_last());
        assert forall|i: int| crate::qq::without_slashes(s).len() <= i < s.len() implies
            #[trigger] s[i] == '/' by {
            if i < s.len() - 1 {
                assert(s.drop_last()[i] == '/');
            }
        }
    }
}

/// The address of a directory names a file and ends in a slash.
pub proof fn directories_end_in_a_slash(s: Seq<char>)
    ensures
        crate::targets::is_directory_url(s) <==> s.len() >= 7 && s.take(7) == "file://"@ && s.last()
            == '/',
{
    reveal_strlit("file://");
    if "file://"@.is_prefix_of(s) {
        assert(s.take(7) =~= "file://"@);
    }
    if s.len() >= 7 && s.take(7) == "file://"@ {
        assert("file://"@ =~= s.subrange(0, 7));
    }
}

/// A script on a remote host is run by a shell that reads it from its input, with each
/// argument as a quoted word behind the others.
pub proof fn scripts_are_run_with_their_arguments(args: Seq<Seq<char>>, last: Seq<char>)
    ensures
        remote_command(Seq::empty()) == "sh"@ + " "@ + "-s"@ + " "@ + "--"@,
        remote_command(args.push(last)) == remote_command(args) + " "@
            + crate::targets::quoted_word(last),
{
    let f = |a: Seq<char>| crate::targets::quoted_word(a);
    let head = seq!["sh"@, "-s"@, "--"@];
    let none = Seq::<Seq<char>>::empty();
    reveal_with_fuel(crate::text::join, 4);
    assert(head + none.map_values(f) =~= head);
    assert(head.drop_last() =~= seq!["sh"@, "-s"@]);
    assert(head.drop_last().drop_last() =~= seq!["sh"@]);
    assert(crate::text::join(seq!["sh"@], " "@) == "sh"@);
    assert(crate::text::join(head.drop_last(), " "@) == "sh"@ + " "@ + "-s"@);
    let all = head + args.push(last).map_values(f);
    assert(all.drop_last() =~= head + args.map_values(f));
    assert(all.last() == crate::targets::quoted_word(last));
}

} // verus!
