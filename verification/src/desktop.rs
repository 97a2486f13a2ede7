//! What the desktop app decides: its list of profiles, what it shows, and how it
//! asks for the rights that a TUN device needs.

use vstd::prelude::*;
use vstd::string::*;

use crate::addr::{dotted, Ipv4Addr};
use crate::client::config::{
    active_of, find_server, profile_views, server_named, ClientConfig, Profile, ProfileView, ServerEntry,
};
use crate::client::engine::LiveStatus;
use crate::cmd::{cmds, program, push_cmd, Cmd, CmdView};
use crate::config::SessionMode;
use crate::error::{failure_text, Error};
use crate::protocol::control::opt_view;
use crate::text::{
    after_word, alphanumeric, chars_of, contains, decimal, decimal_text, digit, is_alphanumeric,
    law_occurs, law_replace, law_without_prefix, lines, lines_of,
    lowercase, occurs, replace, replaced, same, strip_prefix, texts, to_lowercase, trim,
    trim_start, trimmed, trimmed_start, without_prefix, word_after,
};

verus! {

/// Whether a profile of the list has a name.
pub open spec fn taken(list: Seq<ProfileView>, name: Seq<char>) -> bool {
    exists|i: int| 0 <= i < list.len() && (#[trigger] list[i]).name == name
}

/// A name with a number behind it.
pub open spec fn numbered(name: Seq<char>, n: nat) -> Seq<char> {
    name + " ("@ + decimal(n) + ")"@
}

/// The place of the first profile with a name, from place `i` on.
pub open spec fn place_from(list: Seq<ProfileView>, name: Seq<char>, i: int) -> Option<int>
    decreases list.len() - i,
{
    if i < 0 || i >= list.len() {
        None
    } else if list[i].name == name {
        Some(i)
    } else {
        place_from(list, name, i + 1)
    }
}

/// The place of the first profile with a name.
pub open spec fn place_named(list: Seq<ProfileView>, name: Seq<char>) -> Option<int> {
    place_from(list, name, 0)
}

proof fn lemma_place_from(list: Seq<ProfileView>, name: Seq<char>, i: int)
    requires
        0 <= i,
    ensures
        match place_from(list, name, i) {
            Some(k) => i <= k < list.len() && list[k].name == name && forall|j: int|
                i <= j < k ==> (#[trigger] list[j]).name != name,
            None => forall|j: int| i <= j < list.len() ==> (#[trigger] list[j]).name != name,
        },
    decreases list.len() - i,
{
    if i < list.len() && list[i].name != name {
        lemma_place_from(list, name, i + 1);
    }
}

/// The place of the first profile with a name.
pub fn find_profile(list: &Vec<Profile>, name: &str) -> (r: Option<usize>)
    ensures
        match place_named(profile_views(list@), name@) {
            Some(k) => r is Some && r->Some_0 == k && k < list@.len() && list@[k].name@ == name@,
            None => r is None,
        },
        r is Some <==> taken(profile_views(list@), name@),
{
    let ghost all = profile_views(list@);
    let n: usize = list.len();
    for i in 0..n
        invariant
            n == list@.len(),
            all == profile_views(list@),
            place_named(all, name@) == place_from(all, name@, i as int),
            forall|j: int| 0 <= j < i ==> (#[trigger] all[j]).name != name@,
    {
        assert(all[i as int] == list@[i as int]@);
        if same(list[i].name.as_str(), name) {
            return Some(i);
        }
    }
    None
}

/// The profile with a name, or what is said when there is none.
pub fn profile_named<'a>(list: &'a Vec<Profile>, name: &str) -> (r: Result<&'a Profile, String>)
    ensures
        match place_named(profile_views(list@), name@) {
            Some(k) => r is Ok && *r->Ok_0 == list@[k],
            None => r is Err && r->Err_0@ == "profile '"@ + name@ + "' not found"@,
        },
{
    match find_profile(list, name) {
        Some(k) => Ok(&list[k]),
        None => Err("profile '".to_owned().concat(name).concat("' not found")),
    }
}

proof fn lemma_digits_differ(a: nat, b: nat)
    requires
        a != b,
    ensures
        decimal(a) != decimal(b),
    decreases a + b,
{
    if a >= 10 && b >= 10 {
        if a / 10 != b / 10 {
            lemma_digits_differ(a / 10, b / 10);
            assert(decimal(a).drop_last() =~= decimal(a / 10));
            assert(decimal(b).drop_last() =~= decimal(b / 10));
        } else {
            assert(decimal(a).last() == digit(a % 10));
            assert(decimal(b).last() == digit(b % 10));
        }
    } else if a >= 10 {
        lemma_decimal_len(a / 10);
        assert(decimal(a).len() >= 2);
        assert(decimal(b).len() == 1);
    } else if b >= 10 {
        lemma_decimal_len(b / 10);
        assert(decimal(b).len() >= 2);
        assert(decimal(a).len() == 1);
    } else {
        assert(decimal(a)[0] == digit(a));
        assert(decimal(b)[0] == digit(b));
    }
}

proof fn lemma_decimal_len(n: nat)
    ensures
        decimal(n).len() > 0,
    decreases n,
{
    if n >= 10 {
        lemma_decimal_len(n / 10);
    }
}

proof fn lemma_numbered_differ(name: Seq<char>, a: nat, b: nat)
    requires
        a != b,
    ensures
        numbered(name, a) != numbered(name, b),
{
    lemma_digits_differ(a, b);
    let x = numbered(name, a);
    let y = numbered(name, b);
    if x == y {
        let from = (name + " ("@).len() as int;
        let end = x.len() - ")"@.len();
        assert(x.subrange(from, end) =~= decimal(a));
        assert(y.subrange(from, end) =~= decimal(b));
    }
}

/// A list of `n` profiles cannot take more than `n` names.
proof fn lemma_not_all_taken(list: Seq<ProfileView>, name: Seq<char>, n: nat)
    requires
        n >= 2,
        forall|m: nat| 2 <= m < n ==> taken(list, #[trigger] numbered(name, m)),
    ensures
        n - 2 <= list.len(),
{
    let names = list.map_values(|p: ProfileView| p.name);
    let tried = Seq::new((n - 2) as nat, |i: int| numbered(name, (i + 2) as nat));
    assert(tried.no_duplicates()) by {
        assert forall|i: int, j: int|
            0 <= i < tried.len() && 0 <= j < tried.len() && i != j implies tried[i] != tried[j] by {
            lemma_numbered_differ(name, (i + 2) as nat, (j + 2) as nat);
        }
    }
    tried.unique_seq_to_set();
    names.lemma_cardinality_of_set();
    assert(tried.to_set().subset_of(names.to_set())) by {
        assert forall|t: Seq<char>| tried.to_set().contains(t) implies names.to_set().contains(
            t,
        ) by {
            let i = choose|i: int| 0 <= i < tried.len() && tried[i] == t;
            assert(taken(list, numbered(name, (i + 2) as nat)));
            let k = choose|k: int| 0 <= k < list.len() && (#[trigger] list[k]).name == t;
            assert(names[k] == t);
        }
    }
    vstd::set_lib::lemma_len_subset(tried.to_set(), names.to_set());
}

/// Whether a name is what [`unique_name`] makes of another: the name itself if it is
/// free, and otherwise the name with the least number from 2 on that makes it free.
pub open spec fn made_unique(r: Seq<char>, name: Seq<char>, list: Seq<ProfileView>) -> bool {
    if !taken(list, name) {
        r == name
    } else {
        exists|n: nat|
            n >= 2 && r == #[trigger] numbered(name, n) && !taken(list, r) && forall|m: nat|
                2 <= m < n ==> taken(list, #[trigger] numbered(name, m))
    }
}

/// Makes a name unique in a list by a number behind it, if need be.
pub fn unique_name(name: &str, list: &Vec<Profile>) -> (r: String)
    requires
        list@.len() < 0x7fff_ffff,
    ensures
        made_unique(r@, name@, profile_views(list@)),
        !taken(profile_views(list@), r@),
{
    if find_profile(list, name).is_none() {
        return name.to_owned();
    }
    let ghost all = profile_views(list@);
    let mut n: u64 = 2;
    loop
        invariant
            all == profile_views(list@),
            list@.len() < 0x7fff_ffff,
            taken(all, name@),
            2 <= n <= list@.len() + 2,
            forall|m: nat| 2 <= m < n ==> taken(all, #[trigger] numbered(name@, m)),
        decreases list@.len() + 2 - n,
    {
        let number = decimal_text(n);
        let candidate = name.to_owned().concat(" (").concat(number.as_str()).concat(")");
        assert(candidate@ == numbered(name@, n as nat));
        if find_profile(list, candidate.as_str()).is_none() {
            return candidate;
        }
        proof {
            assert forall|m: nat| 2 <= m < n + 1 implies taken(
                all,
                #[trigger] numbered(name@, m),
            ) by {}
            lemma_not_all_taken(all, name@, (n + 1) as nat);
        }
        n = n + 1;
    }
}

/// The list with a profile in it: in place of the one with its name, or at the end.
pub open spec fn upserted(list: Seq<ProfileView>, p: ProfileView) -> Seq<ProfileView> {
    match place_named(list, p.name) {
        Some(k) => list.update(k, p),
        None => list.push(p),
    }
}

/// Puts a profile into the list.
pub fn upsert_profile(list: &mut Vec<Profile>, p: Profile)
    ensures
        profile_views(final(list)@) == upserted(profile_views(old(list)@), p@),
{
    let ghost before = profile_views(list@);
    match find_profile(list, p.name.as_str()) {
        Some(k) => {
            let ghost at = k as int;
            list.set(k, p);
            assert(profile_views(list@) =~= before.update(at, p@));
        },
        None => {
            list.push(p);
            assert(profile_views(list@) =~= before.push(p@));
        },
    }
}

/// The list without the profiles of a name.
pub open spec fn removed(list: Seq<ProfileView>, name: Seq<char>) -> Seq<ProfileView>
    decreases list.len(),
{
    if list.len() == 0 {
        Seq::empty()
    } else if list.last().name == name {
        removed(list.drop_last(), name)
    } else {
        removed(list.drop_last(), name).push(list.last())
    }
}

/// Takes the profiles of a name out of the list.
pub fn remove_profile(list: &mut Vec<Profile>, name: &str)
    ensures
        profile_views(final(list)@) == removed(profile_views(old(list)@), name@),
{
    let ghost all = profile_views(list@);
    let ghost mut seen: int = 0;
    let mut i: usize = 0;
    assert(all.take(0) =~= Seq::<ProfileView>::empty());
    assert(removed(all.take(0), name@) + all.skip(0) =~= all);
    while i < list.len()
        invariant
            0 <= seen <= all.len(),
            i == removed(all.take(seen), name@).len(),
            profile_views(list@) == removed(all.take(seen), name@) + all.skip(seen),
        decreases list@.len() - i,
    {
        let ghost kept = removed(all.take(seen), name@);
        assert(profile_views(list@).len() == list@.len());
        assert(list@[i as int]@ == profile_views(list@)[i as int]);
        assert(list@[i as int]@ == all[seen]);
        assert(all.take(seen + 1).drop_last() =~= all.take(seen));
        let ghost before = profile_views(list@);
        if same(list[i].name.as_str(), name) {
            let _ = list.remove(i);
            assert(profile_views(list@) =~= before.remove(i as int));
            assert(before.remove(i as int) =~= kept + all.skip(seen + 1));
        } else {
            i = i + 1;
            assert(kept + all.skip(seen) =~= kept.push(all[seen]) + all.skip(seen + 1));
        }
        proof {
            seen = seen + 1;
        }
    }
    assert(all.skip(seen).len() == 0) by {
        assert(profile_views(list@).len() == list@.len());
    }
    assert(all.take(seen) =~= all);
    assert(profile_views(list@) =~= removed(all, name@));
}

/// Whether an imported profile is of use: it has a name and servers.
pub open spec fn usable(p: ProfileView) -> bool {
    trimmed(p.name).len() > 0 && p.servers.len() > 0
}

/// The list with the usable ones of some imported profiles put into it in turn.
pub open spec fn merged(list: Seq<ProfileView>, more: Seq<ProfileView>) -> Seq<ProfileView>
    decreases more.len(),
{
    if more.len() == 0 {
        list
    } else {
        let before = merged(list, more.drop_last());
        if usable(more.last()) {
            upserted(before, more.last())
        } else {
            before
        }
    }
}

/// How many of some imported profiles are usable.
pub open spec fn usable_count(more: Seq<ProfileView>) -> nat
    decreases more.len(),
{
    if more.len() == 0 {
        0
    } else {
        usable_count(more.drop_last()) + if usable(more.last()) {
            1nat
        } else {
            0nat
        }
    }
}

/// Puts imported profiles into the list, each in place of the one with its name if
/// there is one, and says how many. Fails, with the list as it was, if none is
/// usable.
pub fn import_profiles(list: &mut Vec<Profile>, parsed: Vec<Profile>) -> (r: Result<usize, String>)
    ensures
        profile_views(final(list)@) == merged(
            profile_views(old(list)@),
            profile_views(parsed@),
        ),
        usable_count(profile_views(parsed@)) == 0 ==> r is Err && r->Err_0@
            == "no valid profiles found in the TOML"@ && profile_views(final(list)@)
            == profile_views(old(list)@),
        usable_count(profile_views(parsed@)) > 0 ==> r is Ok && r->Ok_0 == usable_count(
            profile_views(parsed@),
        ),
{
    let ghost all = profile_views(parsed@);
    let ghost before = profile_views(list@);
    let mut rest = parsed;
    let total: usize = rest.len();
    let mut n: usize = 0;
    let ghost mut seen: int = 0;
    assert(all.take(0) =~= Seq::<ProfileView>::empty());
    assert(all.skip(0) =~= all);
    while rest.len() > 0
        invariant
            0 <= seen <= all.len(),
            all.len() == total,
            profile_views(rest@) == all.skip(seen),
            profile_views(list@) == merged(before, all.take(seen)),
            n == usable_count(all.take(seen)),
            n <= seen,
            n == 0 ==> profile_views(list@) == before,
        decreases rest@.len(),
    {
        assert(profile_views(rest@).len() == rest@.len());
        assert(rest@[0]@ == profile_views(rest@)[0]);
        let ghost left = profile_views(rest@);
        let p = rest.remove(0);
        assert(p@ == all[seen]);
        assert(profile_views(rest@) =~= left.remove(0));
        assert(left.remove(0) =~= all.skip(seen + 1));
        assert(all.take(seen + 1).drop_last() =~= all.take(seen));
        let name = trim(p.name.as_str());
        if name.as_str().unicode_len() > 0 && p.servers.len() > 0 {
            upsert_profile(list, p);
            n = n + 1;
        }
        proof {
            seen = seen + 1;
        }
    }
    assert(profile_views(rest@).len() == rest@.len());
    assert(all.take(seen) =~= all);
    if n == 0 {
        Err("no valid profiles found in the TOML".to_owned())
    } else {
        Ok(n)
    }
}

/// The name that an imported profile gets before it is made unique.
pub open spec fn import_name(name: Seq<char>) -> Seq<char> {
    if trimmed(name).len() == 0 {
        "imported"@
    } else {
        name
    }
}

/// Puts a profile that came as a link at the end of the list, under a name that is
/// made unique. Fails, with the list as it was, if it has no servers.
pub fn import_profile(list: &mut Vec<Profile>, profile: Profile) -> (r: Result<(), String>)
    requires
        old(list)@.len() < 0x7fff_ffff,
    ensures
        if profile@.servers.len() == 0 {
            r is Err && r->Err_0@ == "the imported config has no servers"@ && final(list)@ == old(list)@
        } else {
            &&& r is Ok
            &&& final(list)@.len() == old(list)@.len() + 1
            &&& final(list)@.drop_last() == old(list)@
            &&& made_unique(
                final(list)@.last()@.name,
                import_name(profile@.name),
                profile_views(old(list)@),
            )
            &&& final(list)@.last()@.selected_server == profile@.selected_server
            &&& final(list)@.last()@.servers == profile@.servers
        },
{
    if profile.servers.len() == 0 {
        return Err("the imported config has no servers".to_owned());
    }
    let bare = trim(profile.name.as_str());
    let name = if bare.as_str().unicode_len() == 0 {
        "imported".to_owned()
    } else {
        profile.name
    };
    let unique = unique_name(name.as_str(), list);
    list.push(
        Profile {
            name: unique,
            selected_server: profile.selected_server,
            servers: profile.servers,
        },
    );
    assert(list@.drop_last() =~= old(list)@);
    Ok(())
}

/// The profile of a configuration stored by an older version, which held device
/// settings too.
pub fn migrated(c: ClientConfig) -> (r: Profile)
    ensures
        r@.name == c.name@,
        r@.selected_server == opt_view(c.selected_server),
        r@.servers == c.servers@,
{
    Profile { name: c.name, selected_server: c.selected_server, servers: c.servers }
}

/// Whether no two profiles of the list have the same name.
pub open spec fn distinct(list: Seq<ProfileView>) -> bool {
    forall|i: int, j: int|
        0 <= i < j < list.len() ==> (#[trigger] list[i]).name != (#[trigger] list[j]).name
}

/// Putting a profile into a list keeps its names distinct.
pub proof fn law_upsert_keeps_names_distinct(list: Seq<ProfileView>, p: ProfileView)
    requires
        distinct(list),
    ensures
        distinct(upserted(list, p)),
{
    lemma_place_from(list, p.name, 0);
}

/// A profile that was put into a list is found there under its name, and no other
/// profile has changed.
pub proof fn law_upsert_then_find(list: Seq<ProfileView>, p: ProfileView)
    ensures
        place_named(upserted(list, p), p.name) is Some,
        upserted(list, p)[place_named(upserted(list, p), p.name)->Some_0] == p,
        forall|i: int|
            0 <= i < list.len() && place_named(list, p.name) != Some(i) ==> #[trigger] upserted(
                list,
                p,
            )[i] == list[i],
{
    lemma_place_from(list, p.name, 0);
    let after = upserted(list, p);
    lemma_place_from(after, p.name, 0);
    let at = match place_named(list, p.name) {
        Some(k) => k,
        None => list.len() as int,
    };
    assert(after[at] == p);
    let found = place_named(after, p.name)->Some_0;
    if found < at {
        assert(after[found] == list[found]);
    }
}

/// A name that was removed from a list is no longer taken, and the others still
/// are.
pub proof fn law_remove(list: Seq<ProfileView>, name: Seq<char>, other: Seq<char>)
    ensures
        !taken(removed(list, name), name),
        other != name ==> (taken(removed(list, name), other) <==> taken(list, other)),
        distinct(list) ==> distinct(removed(list, name)),
        forall|k: int| 0 <= k < removed(list, name).len() ==> list.contains(#[trigger] removed(list, name)[k]),
    decreases list.len(),
{
    if list.len() > 0 {
        let head = list.drop_last();
        law_remove(head, name, other);
        let before = removed(head, name);
        let after = removed(list, name);
        assert forall|k: int| 0 <= k < after.len() implies list.contains(#[trigger] after[k]) by {
            if k < before.len() {
                assert(head.contains(before[k]));
                let q = choose|q: int| 0 <= q < head.len() && head[q] == before[k];
                assert(list[q] == after[k]);
            } else {
                assert(list[list.len() - 1] == after[k]);
            }
        }
        if other != name {
            if taken(after, other) {
                let k = choose|k: int| 0 <= k < after.len() && (#[trigger] after[k]).name == other;
                assert(list.contains(after[k]));
                let q = choose|q: int| 0 <= q < list.len() && list[q] == after[k];
                assert(list[q].name == other);
            }
            if taken(list, other) {
                let q = choose|q: int| 0 <= q < list.len() && (#[trigger] list[q]).name == other;
                if q < head.len() {
                    assert(head[q].name == other);
                    assert(taken(before, other));
                    let k = choose|k: int|
                        0 <= k < before.len() && (#[trigger] before[k]).name == other;
                    assert(after[k].name == other);
                } else {
                    assert(after[after.len() - 1].name == other);
                }
            }
        }
        if distinct(list) {
            assert forall|i: int, j: int| 0 <= i < j < head.len() implies (
            #[trigger] head[i]).name != (#[trigger] head[j]).name by {
                assert(list[i] == head[i] && list[j] == head[j]);
            }
            assert(distinct(before));
            assert forall|i: int, j: int| 0 <= i < j < after.len() implies (
            #[trigger] after[i]).name != (#[trigger] after[j]).name by {
                if j < before.len() {
                    assert(after[i] == before[i] && after[j] == before[j]);
                } else {
                    assert(head.contains(before[i]));
                    let q = choose|q: int| 0 <= q < head.len() && head[q] == before[i];
                    assert(list[q].name != list[list.len() - 1].name);
                }
            }
        }
    }
}

/// A character as it may stand in a file name.
pub open spec fn safe_char(c: char) -> char {
    if alphanumeric(c) || c == '-' || c == '_' {
        c
    } else {
        '-'
    }
}

/// The file name for a profile's export, without its ending.
pub open spec fn safe_name(name: Seq<char>) -> Seq<char> {
    if name.len() == 0 {
        "profile"@
    } else {
        name.map_values(|c: char| safe_char(c))
    }
}

/// The file name for a profile's export.
pub fn export_file(name: &str) -> (r: String)
    ensures
        r@ == safe_name(name@) + ".toml"@,
{
    let cs = chars_of(name);
    let n: usize = cs.len();
    let mut out = String::new();
    let ghost want = name@.map_values(|c: char| safe_char(c));
    assert(want.take(0) =~= Seq::<char>::empty());
    for i in 0..n
        invariant
            n == cs@.len(),
            cs@ == name@,
            want == name@.map_values(|c: char| safe_char(c)),
            out@ == want.take(i as int),
    {
        let c: char = cs[i];
        let safe: char = if is_alphanumeric(c) || c == '-' || c == '_' {
            c
        } else {
            '-'
        };
        out.push(safe);
        assert(out@ =~= want.take(i + 1));
    }
    assert(want.take(n as int) =~= want);
    if n == 0 {
        out = "profile".to_owned();
    }
    out.concat(".toml")
}

/// Whether a session needs a TUN device, and so the rights to create one.
pub open spec fn makes_tun(c: ClientConfig) -> bool {
    c.mode == SessionMode::GlobalProxy || c.mode == SessionMode::Vpn || c.join_vpn
}

/// Whether a session needs a TUN device.
pub fn needs_tun(c: &ClientConfig) -> (r: bool)
    ensures
        r == makes_tun(*c),
{
    c.mode == SessionMode::GlobalProxy || c.mode == SessionMode::Vpn || c.join_vpn
}

/// How long a connection attempt is watched for an early failure, in milliseconds.
pub const EARLY_MS: u64 = 3000;

/// How often it is looked at, in milliseconds.
pub const EARLY_STEP_MS: u64 = 150;

/// What to do while watching a connection attempt.
#[derive(Clone, Copy, Debug, PartialEq, Eq, Structural)]
pub enum Watch {
    /// The engine ended: the attempt failed.
    Failed,
    /// The engine has run long enough: report that it is connected.
    Connected,
    /// Look again after [`EARLY_STEP_MS`].
    Wait,
}

/// What to do after watching for `waited` milliseconds.
pub fn watch(finished: bool, waited: u64) -> (r: Watch)
    ensures
        r == seen(finished, waited),
        r == if finished {
            Watch::Failed
        } else if waited >= EARLY_MS {
            Watch::Connected
        } else {
            Watch::Wait
        },
{
    if finished {
        Watch::Failed
    } else if waited >= EARLY_MS {
        Watch::Connected
    } else {
        Watch::Wait
    }
}

/// How the engine ended.
pub enum EngineEnd {
    /// Without an error.
    Ended,
    Failed(Error),
    /// Its task crashed.
    Crashed(String),
}

/// What is said of an engine that ended early.
pub open spec fn end_text(e: EngineEnd) -> Seq<char> {
    match e {
        EngineEnd::Ended => "the session ended immediately"@,
        EngineEnd::Failed(err) => failure_text(err@),
        EngineEnd::Crashed(why) => "engine task failed: "@ + why@,
    }
}

/// Whether a message, in lower case, is about missing rights.
pub open spec fn lacks_rights(low: Seq<char>) -> bool {
    occurs(low, "not permitted"@) || occurs(low, "denied"@) || occurs(low, "permission"@)
}

/// A message, with advice if it is about missing rights.
pub open spec fn advised(msg: Seq<char>, low: Seq<char>, tun: bool) -> Seq<char> {
    if tun && lacks_rights(low) {
        msg
            + " — Global proxy / VPN create a virtual NIC and need administrator/root. Run the app elevated, or switch to System proxy mode (no admin needed)."@
    } else {
        msg
    }
}

/// A message, given what it is in lower case, with advice if it is about missing
/// rights.
pub fn advise(msg: String, low: &str, tun: bool) -> (r: String)
    ensures
        r@ == advised(msg@, low@, tun),
{
    if tun && (contains(low, "not permitted") || contains(low, "denied") || contains(
        low,
        "permission",
    )) {
        msg.concat(
            " — Global proxy / VPN create a virtual NIC and need administrator/root. Run the app elevated, or switch to System proxy mode (no admin needed).",
        )
    } else {
        msg
    }
}

/// What is said of an engine that ended early.
pub fn early_failure(e: EngineEnd, tun: bool) -> (r: String)
    ensures
        r@ == advised(end_text(e), lowercase(end_text(e)), tun),
{
    let msg = match e {
        EngineEnd::Ended => "the session ended immediately".to_owned(),
        EngineEnd::Failed(err) => err.to_text(),
        EngineEnd::Crashed(why) => "engine task failed: ".to_owned().concat(why.as_str()),
    };
    let low = to_lowercase(msg.as_str());
    advise(msg, low.as_str(), tun)
}

/// One peer as the app shows it.
pub struct Peer {
    pub ip: String,
    pub name: String,
}

/// What the app shows of the session.
pub struct Status {
    pub connected: bool,
    pub profile: Option<String>,
    pub assigned_ip: Option<String>,
    pub mode: Option<String>,
    pub error: Option<String>,
    /// Peers on the same server; empty unless the client is a member of its LAN.
    pub peers: Vec<Peer>,
    /// Payload bytes sent in this session.
    pub up_bytes: u64,
    /// Payload bytes received in this session.
    pub down_bytes: u64,
}

/// The view of a [`Status`].
pub struct StatusView {
    pub connected: bool,
    pub profile: Option<Seq<char>>,
    pub assigned_ip: Option<Seq<char>>,
    pub mode: Option<Seq<char>>,
    pub error: Option<Seq<char>>,
    /// Addresses and names.
    pub peers: Seq<(Seq<char>, Seq<char>)>,
    pub up_bytes: u64,
    pub down_bytes: u64,
}

impl View for Status {
    type V = StatusView;

    open spec fn view(&self) -> StatusView {
        StatusView {
            connected: self.connected,
            profile: opt_view(self.profile),
            assigned_ip: opt_view(self.assigned_ip),
            mode: opt_view(self.mode),
            error: opt_view(self.error),
            peers: self.peers@.map_values(|p: Peer| (p.ip@, p.name@)),
            up_bytes: self.up_bytes,
            down_bytes: self.down_bytes,
        }
    }
}

impl Default for Status {
    fn default() -> (r: Status)
        ensures
            r@ == (StatusView {
                connected: false,
                profile: None,
                assigned_ip: None,
                mode: None,
                error: None,
                peers: Seq::empty(),
                up_bytes: 0,
                down_bytes: 0,
            }),
    {
        let r = Status {
            connected: false,
            profile: None,
            assigned_ip: None,
            mode: None,
            error: None,
            peers: Vec::new(),
            up_bytes: 0,
            down_bytes: 0,
        };
        assert(r@.peers =~= Seq::empty());
        r
    }
}

/// What is shown after a connection attempt: `error` if it failed early.
pub fn attempted(
    name: String,
    mode: SessionMode,
    requested_ip: Option<Ipv4Addr>,
    error: Option<String>,
) -> (r: Status)
    ensures
        r@ == (StatusView {
            connected: error is None,
            profile: Some(name@),
            assigned_ip: match requested_ip {
                Some(ip) if error is None => Some(dotted(ip.bits)),
                _ => None,
            },
            mode: Some(mode.name()),
            error: opt_view(error),
            peers: Seq::empty(),
            up_bytes: 0,
            down_bytes: 0,
        }),
{
    let connected = error.is_none();
    let assigned_ip = match requested_ip {
        Some(ip) => if connected {
            Some(ip.to_text())
        } else {
            None
        },
        None => None,
    };
    let r = Status {
        connected,
        profile: Some(name),
        assigned_ip,
        mode: Some(mode.to_text()),
        error,
        peers: Vec::new(),
        up_bytes: 0,
        down_bytes: 0,
    };
    assert(r@.peers =~= Seq::empty());
    r
}

/// What is shown once the session was ended by the user; `error` is what went wrong
/// in ending it.
pub fn disconnected(s: Status, error: Option<String>) -> (r: Status)
    ensures
        r@ == (StatusView { connected: false, error: opt_view(error), ..s@ }),
{
    Status { connected: false, error, ..s }
}

/// What is shown of a session now: what was shown when it started, with what the
/// engine reports. `alive` says whether the engine runs.
pub open spec fn live_view(s: StatusView, alive: bool, live: Option<LiveStatus>) -> StatusView {
    match live {
        Some(l) => StatusView {
            connected: alive,
            assigned_ip: match l.assigned_ip {
                Some(ip) => Some(dotted(ip.bits)),
                None => s.assigned_ip,
            },
            peers: Seq::new(
                l.peers@.len(),
                |i: int| (dotted(l.peers@[i].ip.bits), l.peers@[i].name@),
            ),
            up_bytes: l.up_bytes,
            down_bytes: l.down_bytes,
            ..s
        },
        None => StatusView {
            connected: alive,
            peers: Seq::empty(),
            up_bytes: 0,
            down_bytes: 0,
            ..s
        },
    }
}

/// What is shown of a session now.
pub fn status(s: Status, alive: bool, live: Option<&LiveStatus>) -> (r: Status)
    ensures
        r@ == live_view(
            s@,
            alive,
            match live {
                Some(l) => Some(*l),
                None => None,
            },
        ),
{
    match live {
        Some(l) => {
            let n: usize = l.peers.len();
            let mut peers: Vec<Peer> = Vec::new();
            let ghost want = Seq::new(
                l.peers@.len(),
                |i: int| (dotted(l.peers@[i].ip.bits), l.peers@[i].name@),
            );
            assert(peers@.map_values(|p: Peer| (p.ip@, p.name@)) =~= want.take(0));
            for i in 0..n
                invariant
                    n == l.peers@.len(),
                    want == Seq::new(
                        l.peers@.len(),
                        |i: int| (dotted(l.peers@[i].ip.bits), l.peers@[i].name@),
                    ),
                    peers@.map_values(|p: Peer| (p.ip@, p.name@)) == want.take(i as int),
            {
                let ghost before = peers@.map_values(|p: Peer| (p.ip@, p.name@));
                let p = Peer { ip: l.peers[i].ip.to_text(), name: l.peers[i].name.clone() };
                peers.push(p);
                assert(peers@.map_values(|p: Peer| (p.ip@, p.name@)) =~= before.push(
                    (p.ip@, p.name@),
                ));
                assert(before.push((p.ip@, p.name@)) =~= want.take(i + 1));
            }
            assert(want.take(n as int) =~= want);
            let assigned_ip = match l.assigned_ip {
                Some(ip) => Some(ip.to_text()),
                None => s.assigned_ip,
            };
            Status {
                connected: alive,
                assigned_ip,
                peers,
                up_bytes: l.up_bytes,
                down_bytes: l.down_bytes,
                profile: s.profile,
                mode: s.mode,
                error: s.error,
            }
        },
        None => {
            let r = Status { connected: alive, peers: Vec::new(), up_bytes: 0, down_bytes: 0, ..s };
            assert(r@.peers =~= Seq::empty());
            r
        },
    }
}

/// The server to measure: the one with the name, or else the profile's active one.
pub fn server_to_ping(p: &Profile, server: &str) -> (r: Result<ServerEntry, String>)
    ensures
        match server_named(p.servers@, server@) {
            Some(s) => r == Ok::<ServerEntry, String>(s),
            None => if p.servers@.len() > 0 {
                r == Ok::<ServerEntry, String>(
                    active_of(p.servers@, opt_view(p.selected_server)),
                )
            } else {
                r is Err && r->Err_0@ == "server '"@ + server@ + "' not found"@
            },
        },
{
    if let Some(k) = find_server(&p.servers, server) {
        return Ok(p.servers[k].clone());
    }
    match p.active_server() {
        Ok(s) => Ok(s),
        Err(_) => Err("server '".to_owned().concat(server).concat("' not found")),
    }
}

/// Whether a line of a PAM file lets `sudo` ask for a fingerprint.
pub open spec fn asks_fingerprint(line: Seq<char>) -> bool {
    let l = trimmed_start(line);
    without_prefix(l, "#"@) is None && occurs(l, "pam_tid.so"@)
}

/// Whether a PAM file lets `sudo` ask for a fingerprint.
pub fn touchid_sudo_enabled(file: &str) -> (r: bool)
    ensures
        r <==> exists|i: int|
            0 <= i < lines_of(file@).len() && asks_fingerprint(#[trigger] lines_of(file@)[i]),
{
    let ls = lines(file);
    let n: usize = ls.len();
    let ghost all = texts(ls@);
    for i in 0..n
        invariant
            n == ls@.len(),
            all == texts(ls@),
            all == lines_of(file@),
            forall|j: int| 0 <= j < i ==> !asks_fingerprint(#[trigger] all[j]),
    {
        assert(all[i as int] == ls@[i as int]@);
        let l = trim_start(ls[i].as_str());
        if strip_prefix(l.as_str(), "#").is_none() && contains(l.as_str(), "pam_tid.so") {
            assert(asks_fingerprint(all[i as int]));
            return true;
        }
    }
    false
}

/// The systems that the app runs on.
#[derive(Clone, Copy, Debug, PartialEq, Eq, Structural)]
pub enum Desktop {
    Linux,
    MacOs,
    Windows,
}

/// A text between single quotes, as a shell reads it back.
pub open spec fn sh_quoted(s: Seq<char>) -> Seq<char> {
    "'"@ + replaced(s, '\'', "'\\''"@) + "'"@
}

fn sh_quote(s: &str) -> (r: String)
    ensures
        r@ == sh_quoted(s@),
{
    "'".to_owned().concat(replace(s, '\'', "'\\''").as_str()).concat("'")
}

/// The shell command that starts the app again in the session of user `uid`.
pub open spec fn restart_line(exe: Seq<char>, dir: Seq<char>, uid: u32) -> Seq<char> {
    "launchctl asuser "@ + decimal(uid as nat) + " "@ + sh_quoted(exe) + " --config-dir "@
        + sh_quoted(dir) + " >/dev/null 2>&1 &"@
}

/// A text as it stands between double quotes in AppleScript.
pub open spec fn script_quoted(s: Seq<char>) -> Seq<char> {
    replaced(replaced(s, '\\', "\\\\"@), '"', "\\\""@)
}

/// The commands that start the app again with more rights, to be tried in order
/// until one succeeds. `touch_id` says whether `sudo` may ask for a fingerprint.
pub open spec fn relaunch_plan(
    on: Desktop,
    exe: Seq<char>,
    dir: Seq<char>,
    uid: u32,
    touch_id: bool,
) -> Seq<CmdView> {
    match on {
        Desktop::Linux => Seq::empty().push(
            program("pkexec"@).arg(exe).arg("--config-dir"@).arg(dir),
        ),
        Desktop::Windows => Seq::empty().push(
            program("powershell"@).arg("-NoProfile"@).arg("-WindowStyle"@).arg("Hidden"@).arg(
                "-Command"@,
            ).arg(
                "Start-Process -FilePath '"@ + replaced(exe, '\'', "''"@)
                    + "' -ArgumentList '--config-dir','"@ + replaced(dir, '\'', "''"@)
                    + "' -Verb RunAs"@,
            ),
        ),
        Desktop::MacOs => {
            let line = restart_line(exe, dir, uid);
            let sudo = if touch_id {
                Seq::empty().push(program("/usr/bin/sudo"@).arg("/bin/sh"@).arg("-c"@).arg(line))
            } else {
                Seq::empty()
            };
            sudo.push(
                program("osascript"@).arg("-e"@).arg(
                    "do shell script \""@ + script_quoted(line)
                        + "\" with administrator privileges"@,
                ),
            )
        },
    }
}

/// The commands that start the app again with more rights, to be tried in order
/// until one succeeds.
pub fn elevate_relaunch(on: Desktop, exe: &str, dir: &str, uid: u32, touch_id: bool) -> (r: Vec<Cmd>)
    ensures
        cmds(r@) == relaunch_plan(on, exe@, dir@, uid, touch_id),
{
    let mut v: Vec<Cmd> = Vec::new();
    assert(cmds(v@) =~= Seq::<CmdView>::empty());
    match on {
        Desktop::Linux => {
            push_cmd(&mut v, Cmd::new("pkexec").arg(exe).arg("--config-dir").arg(dir));
        },
        Desktop::Windows => {
            let ps = "Start-Process -FilePath '".to_owned().concat(
                replace(exe, '\'', "''").as_str(),
            ).concat("' -ArgumentList '--config-dir','").concat(
                replace(dir, '\'', "''").as_str(),
            ).concat("' -Verb RunAs");
            push_cmd(
                &mut v,
                Cmd::new("powershell").arg("-NoProfile").arg("-WindowStyle").arg("Hidden").arg(
                    "-Command",
                ).arg(ps.as_str()),
            );
        },
        Desktop::MacOs => {
            let user = decimal_text(uid as u64);
            let line = "launchctl asuser ".to_owned().concat(user.as_str()).concat(" ").concat(
                sh_quote(exe).as_str(),
            ).concat(" --config-dir ").concat(sh_quote(dir).as_str()).concat(
                " >/dev/null 2>&1 &",
            );
            if touch_id {
                push_cmd(
                    &mut v,
                    Cmd::new("/usr/bin/sudo").arg("/bin/sh").arg("-c").arg(line.as_str()),
                );
            }
            let escaped = replace(
                replace(line.as_str(), '\\', "\\\\").as_str(),
                '"',
                "\\\"",
            );
            let script = "do shell script \"".to_owned().concat(escaped.as_str()).concat(
                "\" with administrator privileges",
            );
            push_cmd(&mut v, Cmd::new("osascript").arg("-e").arg(script.as_str()));
        },
    }
    v
}

/// How the last of the commands ended.
pub enum Launch {
    /// It ran, and succeeded or not.
    Exited(bool),
    /// It could not be started.
    NotStarted(String),
}

/// What the end of the last command means. On Linux it is enough that it started.
pub fn relaunched(on: Desktop, l: Launch) -> (r: Result<(), String>)
    ensures
        match l {
            Launch::NotStarted(e) => r is Err && r->Err_0@ == if on == Desktop::Linux {
                "pkexec failed: "@ + e@ + " (install policykit, or run with sudo)"@
            } else {
                e@
            },
            Launch::Exited(ok) => if ok || on == Desktop::Linux {
                r is Ok
            } else {
                r is Err && r->Err_0@ == if on == Desktop::MacOs {
                    "authorization was cancelled"@
                } else {
                    "UAC elevation was cancelled"@
                }
            },
        },
{
    match l {
        Launch::NotStarted(e) => if on == Desktop::Linux {
            Err(
                "pkexec failed: ".to_owned().concat(e.as_str()).concat(
                    " (install policykit, or run with sudo)",
                ),
            )
        } else {
            Err(e)
        },
        Launch::Exited(ok) => if ok || on == Desktop::Linux {
            Ok(())
        } else if on == Desktop::MacOs {
            Err("authorization was cancelled".to_owned())
        } else {
            Err("UAC elevation was cancelled".to_owned())
        },
    }
}

/// The directory that the program arguments name for the app's files.
pub fn config_dir(args: &Vec<String>) -> (r: Option<String>)
    ensures
        match word_after(texts(args@), "--config-dir"@) {
            Some(d) => r is Some && r->Some_0@ == d,
            None => r is None,
        },
{
    after_word(args, "--config-dir")
}

/// Storing a profile replaces the first one of its name, in its place, or adds it at the
/// end.
pub proof fn law_upsert(list: Seq<ProfileView>, p: ProfileView, k: int)
    ensures
        !taken(list, p.name) ==> upserted(list, p) == list.push(p),
        0 <= k < list.len() && list[k].name == p.name && (forall|i: int|
            0 <= i < k ==> (#[trigger] list[i]).name != p.name) ==> upserted(list, p)
            == list.update(k, p),
{
    if 0 <= k < list.len() && list[k].name == p.name && (forall|i: int|
        0 <= i < k ==> (#[trigger] list[i]).name != p.name) {
        lemma_place(list, p.name, 0, k);
    }
    if !taken(list, p.name) {
        lemma_no_place(list, p.name, 0);
    }
}

proof fn lemma_place(list: Seq<ProfileView>, name: Seq<char>, i: int, k: int)
    requires
        0 <= i <= k < list.len(),
        list[k].name == name,
        forall|j: int| i <= j < k ==> (#[trigger] list[j]).name != name,
    ensures
        place_from(list, name, i) == Some(k),
    decreases k - i,
{
    if i < k {
        assert(list[i].name != name);
        lemma_place(list, name, i + 1, k);
    }
}

proof fn lemma_no_place(list: Seq<ProfileView>, name: Seq<char>, i: int)
    requires
        0 <= i,
        !taken(list, name),
    ensures
        place_from(list, name, i) is None,
    decreases list.len() - i,
{
    if i < list.len() {
        assert(list[i].name != name);
        lemma_no_place(list, name, i + 1);
    }
}

/// A name that is free is kept; a taken one gets the first number from 2 on, in brackets
/// behind a space, that makes it free.
pub proof fn law_unique_names(r: Seq<char>, name: Seq<char>, list: Seq<ProfileView>)
    requires
        made_unique(r, name, list),
    ensures
        !taken(list, r),
        !taken(list, name) ==> r == name,
        taken(list, name) ==> exists|n: nat|
            n >= 2 && r == name + seq![' ', '('] + #[trigger] decimal(n) + seq![')'],
{
    reveal_strlit(" (");
    reveal_strlit(")");
    assert(" ("@ =~= seq![' ', '(']);
    assert(")"@ =~= seq![')']);
    if taken(list, name) {
        let n = choose|n: nat|
            n >= 2 && r == #[trigger] numbered(name, n) && !taken(list, r) && forall|m: nat|
                2 <= m < n ==> taken(list, #[trigger] numbered(name, m));
        assert(r == name + seq![' ', '('] + decimal(n) + seq![')']);
    }
}

/// Removing takes away every profile of a name and leaves all others in their order.
pub proof fn law_removal(a: Seq<ProfileView>, b: Seq<ProfileView>, name: Seq<char>)
    ensures
        removed(a + b, name) == removed(a, name) + removed(b, name),
        b.len() == 1 && b[0].name != name ==> removed(b, name) == b,
        b.len() == 1 && b[0].name == name ==> removed(b, name).len() == 0,
        b.len() == 0 ==> removed(b, name).len() == 0,
    decreases b.len(),
{
    if b.len() == 0 {
        assert(a + b =~= a);
        assert(removed(a, name) + removed(b, name) =~= removed(a, name));
    } else {
        assert((a + b).drop_last() =~= a + b.drop_last());
        assert((a + b).last() == b.last());
        law_removal(a, b.drop_last(), name);
        if b.len() == 1 {
            assert(b.drop_last() =~= Seq::<ProfileView>::empty());
            assert(removed(b.drop_last(), name) =~= Seq::<ProfileView>::empty());
            if b[0].name != name {
                assert(removed(b, name) =~= b);
            }
        }
        assert(removed(a + b, name) =~= removed(a, name) + removed(b, name));
    }
}

/// An import stores its profiles one after the other. One without a name or without servers
/// is passed over and does not count.
pub proof fn law_merging(
    list: Seq<ProfileView>,
    a: Seq<ProfileView>,
    b: Seq<ProfileView>,
    p: ProfileView,
)
    ensures
        merged(list, a + b) == merged(merged(list, a), b),
        usable_count(a + b) == usable_count(a) + usable_count(b),
        merged(list, Seq::empty()) == list,
        trimmed(p.name).len() > 0 && p.servers.len() > 0 ==> merged(list, seq![p]) == upserted(
            list,
            p,
        ) && usable_count(seq![p]) == 1,
        trimmed(p.name).len() == 0 || p.servers.len() == 0 ==> merged(list, seq![p]) == list
            && usable_count(seq![p]) == 0,
    decreases b.len(),
{
    assert(seq![p].drop_last() =~= Seq::<ProfileView>::empty());
    assert(merged(list, seq![p].drop_last()) == list);
    assert(usable_count(seq![p].drop_last()) == 0);
    if b.len() == 0 {
        assert(a + b =~= a);
    } else {
        assert((a + b).drop_last() =~= a + b.drop_last());
        assert((a + b).last() == b.last());
        law_merging(list, a, b.drop_last(), p);
    }
}

/// A profile without a name is imported as `imported`, any other under its own name.
pub proof fn law_import_names(name: Seq<char>)
    ensures
        trimmed(name).len() == 0 ==> import_name(name) == "imported"@,
        trimmed(name).len() > 0 ==> import_name(name) == name,
{
}

/// A file name keeps letters, digits, hyphens and underscores of a profile's name and has a
/// hyphen in place of anything else. It is never empty.
pub proof fn law_file_names(name: Seq<char>, i: int)
    ensures
        name.len() == 0 ==> safe_name(name) == "profile"@,
        name.len() > 0 ==> safe_name(name).len() == name.len(),
        0 <= i < name.len() && (alphanumeric(name[i]) || name[i] == '-' || name[i] == '_')
            ==> safe_name(name)[i] == name[i],
        0 <= i < name.len() && !alphanumeric(name[i]) && name[i] != '_' ==> safe_name(name)[i]
            == '-',
{
}

/// The modes that need a virtual device: the global proxy, the VPN, and any that joins the
/// peer LAN.
pub proof fn law_device_needed(c: ClientConfig)
    ensures
        c.mode == SessionMode::GlobalProxy ==> makes_tun(c),
        c.mode == SessionMode::Vpn ==> makes_tun(c),
        c.join_vpn ==> makes_tun(c),
        c.mode == SessionMode::SystemProxy && !c.join_vpn ==> !makes_tun(c),
        c.mode == SessionMode::HttpProxy && !c.join_vpn ==> !makes_tun(c),
{
}

/// An error that speaks of missing rights gets advice just where a device is needed; every
/// other error is told as it is.
pub proof fn law_advice(msg: Seq<char>, low: Seq<char>, a: Seq<char>, b: Seq<char>)
    ensures
        advised(msg, low, false) == msg,
        !occurs(low, "not permitted"@) && !occurs(low, "denied"@) && !occurs(low, "permission"@)
            ==> advised(msg, low, true) == msg,
        lacks_rights(a + "not permitted"@ + b),
        lacks_rights(a + "denied"@ + b),
        lacks_rights(a + "permission"@ + b),
        lacks_rights(low) ==> advised(msg, low, true).len() > msg.len() && msg.is_prefix_of(
            advised(msg, low, true),
        ),
{
    law_occurs(a, "not permitted"@, b, low);
    law_occurs(a, "denied"@, b, low);
    law_occurs(a, "permission"@, b, low);
    reveal_strlit(
        " — Global proxy / VPN create a virtual NIC and need administrator/root. Run the app elevated, or switch to System proxy mode (no admin needed).",
    );
    assert(advised(msg, low, false) =~= msg);
}

/// What is told of an engine that ended early.
pub proof fn law_early_ends(e: EngineEnd)
    ensures
        e is Ended ==> end_text(e) == "the session ended immediately"@,
        e is Failed ==> end_text(e) == failure_text(e->Failed_0@),
        e is Crashed ==> end_text(e) == "engine task failed: "@ + e->Crashed_0@,
{
}

/// The status of a running session shows its address, counters and peers as they are now;
/// without one it shows no traffic and no peers. The rest stays as it was.
pub proof fn law_live_status(s: StatusView, alive: bool, l: LiveStatus, i: int)
    ensures
        ({
            let v = live_view(s, alive, Some(l));
            &&& v.connected == alive
            &&& l.assigned_ip is Some ==> v.assigned_ip == Some(dotted(l.assigned_ip->Some_0.bits))
            &&& l.assigned_ip is None ==> v.assigned_ip == s.assigned_ip
            &&& v.peers.len() == l.peers@.len()
            &&& 0 <= i < l.peers@.len() ==> v.peers[i] == (
                dotted(l.peers@[i].ip.bits),
                l.peers@[i].name@,
            )
            &&& v.up_bytes == l.up_bytes
            &&& v.down_bytes == l.down_bytes
            &&& v.profile == s.profile
            &&& v.mode == s.mode
            &&& v.error == s.error
        }),
        ({
            let v = live_view(s, alive, None);
            &&& v.connected == alive
            &&& v.assigned_ip == s.assigned_ip
            &&& v.peers.len() == 0
            &&& v.up_bytes == 0
            &&& v.down_bytes == 0
            &&& v.profile == s.profile
            &&& v.mode == s.mode
            &&& v.error == s.error
        }),
{
}

/// A line turns the fingerprint on if it names the module, unless it is a comment.
pub proof fn law_fingerprint_lines(a: Seq<char>, b: Seq<char>, line: Seq<char>)
    ensures
        trimmed_start(line) == a + "pam_tid.so"@ + b && (a.len() == 0 || a[0] != '#')
            ==> asks_fingerprint(line),
        trimmed_start(line).len() > 0 && trimmed_start(line)[0] == '#' ==> !asks_fingerprint(line),
        !occurs(trimmed_start(line), "pam_tid.so"@) ==> !asks_fingerprint(line),
{
    let l = trimmed_start(line);
    reveal_strlit("#");
    reveal_strlit("pam_tid.so");
    law_occurs(a, "pam_tid.so"@, b, l);
    law_without_prefix("#"@, l);
    if l.len() > 0 && l[0] == '#' {
        assert(l =~= "#"@ + l.skip(1));
        law_without_prefix("#"@, l.skip(1));
    }
    if l == a + "pam_tid.so"@ + b && (a.len() == 0 || a[0] != '#') {
        if a.len() == 0 {
            assert(l[0] == 'p');
        } else {
            assert(l[0] == a[0]);
        }
    }
}

/// A text for the shell stands in single quotes. Where it holds none it stands in them as
/// it is; each of its own is left, written with a backslash, and entered again.
pub proof fn law_shell_quotes(s: Seq<char>, x: char)
    ensures
        sh_quoted(Seq::empty()) == seq!['\'', '\''],
        x != '\'' ==> sh_quoted(s.push(x)) == sh_quoted(s).drop_last() + seq![x, '\''],
        x == '\'' ==> sh_quoted(s.push(x)) == sh_quoted(s).drop_last() + seq![
            '\'',
            '\\',
            '\'',
            '\'',
            '\'',
        ],
{
    reveal_strlit("'");
    reveal_strlit("'\\''");
    law_replace(s, x, '\'', "'\\''"@);
    assert("'"@ =~= seq!['\'']);
    assert(sh_quoted(s).drop_last() =~= "'"@ + replaced(s, '\'', "'\\''"@));
    assert(sh_quoted(Seq::empty()) =~= seq!['\'', '\'']);
    if x == '\'' {
        assert(sh_quoted(s.push(x)) =~= sh_quoted(s).drop_last() + seq![
            '\'',
            '\\',
            '\'',
            '\'',
            '\'',
        ]);
    } else {
        assert(sh_quoted(s.push(x)) =~= sh_quoted(s).drop_last() + seq![x, '\'']);
    }
}

/// How the app starts itself with the rights of an administrator, on each system.
pub proof fn law_relaunch(exe: Seq<char>, dir: Seq<char>, uid: u32, touch_id: bool)
    ensures
        ({
            let plan = relaunch_plan(Desktop::Linux, exe, dir, uid, touch_id);
            &&& plan.len() == 1
            &&& plan[0].program == "pkexec"@
            &&& plan[0].args == seq![exe, "--config-dir"@, dir]
        }),
        ({
            let plan = relaunch_plan(Desktop::MacOs, exe, dir, uid, touch_id);
            let line = "launchctl asuser "@ + decimal(uid as nat) + " "@ + sh_quoted(exe)
                + " --config-dir "@ + sh_quoted(dir) + " >/dev/null 2>&1 &"@;
            &&& touch_id ==> plan.len() == 2
            &&& !touch_id ==> plan.len() == 1
            &&& touch_id ==> plan[0].program == "/usr/bin/sudo"@
            &&& touch_id ==> plan[0].args == seq!["/bin/sh"@, "-c"@, line]
            &&& plan.last().program == "osascript"@
            &&& plan.last().args == seq![
                "-e"@,
                "do shell script \""@ + replaced(replaced(line, '\\', "\\\\"@), '"', "\\\""@)
                    + "\" with administrator privileges"@,
            ]
        }),
        ({
            let plan = relaunch_plan(Desktop::Windows, exe, dir, uid, touch_id);
            &&& plan.len() == 1
            &&& plan[0].program == "powershell"@
            &&& plan[0].args == seq![
                "-NoProfile"@,
                "-WindowStyle"@,
                "Hidden"@,
                "-Command"@,
                "Start-Process -FilePath '"@ + replaced(exe, '\'', "''"@)
                    + "' -ArgumentList '--config-dir','"@ + replaced(dir, '\'', "''"@)
                    + "' -Verb RunAs"@,
            ]
        }),
{
    let line = restart_line(exe, dir, uid);
    let linux = relaunch_plan(Desktop::Linux, exe, dir, uid, touch_id);
    assert(linux[0].args =~= seq![exe, "--config-dir"@, dir]);
    let mac = relaunch_plan(Desktop::MacOs, exe, dir, uid, touch_id);
    if touch_id {
        assert(mac[0].args =~= seq!["/bin/sh"@, "-c"@, line]);
    }
    assert(mac.last().args =~= seq![
        "-e"@,
        "do shell script \""@ + script_quoted(line) + "\" with administrator privileges"@,
    ]);
    let windows = relaunch_plan(Desktop::Windows, exe, dir, uid, touch_id);
    assert(windows[0].args =~= seq![
        "-NoProfile"@,
        "-WindowStyle"@,
        "Hidden"@,
        "-Command"@,
        "Start-Process -FilePath '"@ + replaced(exe, '\'', "''"@)
            + "' -ArgumentList '--config-dir','"@ + replaced(dir, '\'', "''"@)
            + "' -Verb RunAs"@,
    ]);
}

/// What is seen of an engine after some milliseconds.
pub open spec fn seen(finished: bool, waited: u64) -> Watch {
    if finished {
        Watch::Failed
    } else if waited >= EARLY_MS {
        Watch::Connected
    } else {
        Watch::Wait
    }
}

/// An engine that ended failed; one that still runs counts as connected after three
/// seconds, and is waited for until then.
pub proof fn law_watching(waited: u64)
    ensures
        seen(true, waited) == Watch::Failed,
        waited >= 3000 ==> seen(false, waited) == Watch::Connected,
        waited < 3000 ==> seen(false, waited) == Watch::Wait,
{
}

}
