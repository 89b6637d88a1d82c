use vstd::prelude::*;

use crate::bulb::{dev_info_bulb, parse_dev_info, Bulb, BulbView};
use crate::pilot::{decimal, push_decimal};

verus! {

/// The UDP port on which bulbs listen for commands.
pub const WIZARD_PORT: u16 = 38899;

/// The `ip:port` text of the address to which commands for a bulb at `ip` go.
pub open spec fn address_text(ip: Seq<char>) -> Seq<char> {
    ip + ":"@ + decimal(WIZARD_PORT as nat)
}

/// Where commands for the bulb at `ip` are sent.
pub fn bulb_address(ip: &str) -> (r: String)
    ensures
        r@ == address_text(ip@),
{
    let mut s = String::from_str(ip);
    s.append(":");
    push_decimal(&mut s, WIZARD_PORT as u32);
    s
}

/// A datagram received during discovery, with the address it came from.
pub struct Reply {
    pub ip: String,
    pub data: Vec<u8>,
}

/// The views of a list of bulbs.
pub open spec fn views(bs: Seq<Bulb>) -> Seq<BulbView> {
    bs.map_values(|b: Bulb| b@)
}

/// The position of the latest entry for `mac` in `list`; -1 when there is none.
pub open spec fn mac_index(list: Seq<BulbView>, mac: Seq<char>) -> int
    decreases list.len(),
{
    if list.len() == 0 {
        -1
    } else if list.last().mac == mac {
        list.len() - 1
    } else {
        mac_index(list.drop_last(), mac)
    }
}

/// `list` with `b` in place of the entry for its mac, or `b` added at the end
/// when its mac is new.
pub open spec fn upsert(list: Seq<BulbView>, b: BulbView) -> Seq<BulbView> {
    let k = mac_index(list, b.mac);
    if k < 0 {
        list.push(b)
    } else {
        list.update(k, b)
    }
}

/// No two entries of `list` share a mac.
pub open spec fn distinct_macs(list: Seq<BulbView>) -> bool {
    forall|i: int, j: int| 0 <= i < j < list.len() ==> #[trigger] list[i].mac != #[trigger] list[j].mac
}

/// The bulbs that the replies of a scan announce, one per mac, in order of
/// first answer: the host's own echo and the replies that do not parse are
/// left out, and a later reply for a mac already listed replaces its entry.
pub open spec fn scanned(local_ip: Seq<char>, replies: Seq<Reply>) -> Seq<BulbView>
    decreases replies.len(),
{
    if replies.len() == 0 {
        Seq::empty()
    } else {
        let earlier = scanned(local_ip, replies.drop_last());
        let r = replies.last();
        if r.ip@ == local_ip {
            earlier
        } else {
            match dev_info_bulb(r.ip@, r.data@) {
                Some(b) => upsert(earlier, b),
                None => earlier,
            }
        }
    }
}

proof fn lemma_mac_index(list: Seq<BulbView>, mac: Seq<char>)
    ensures
        -1 <= mac_index(list, mac) < list.len(),
        mac_index(list, mac) >= 0 ==> list[mac_index(list, mac)].mac == mac,
        mac_index(list, mac) < 0 ==> forall|i: int| 0 <= i < list.len() ==> #[trigger] list[i].mac != mac,
    decreases list.len(),
{
    if list.len() > 0 && list.last().mac != mac {
        let rest = list.drop_last();
        lemma_mac_index(rest, mac);
        if mac_index(list, mac) < 0 {
            assert forall|i: int| 0 <= i < list.len() implies #[trigger] list[i].mac != mac by {
                if i < rest.len() {
                    assert(list[i] == rest[i]);
                }
            }
        }
    }
}

proof fn lemma_upsert_distinct(list: Seq<BulbView>, b: BulbView)
    requires
        distinct_macs(list),
    ensures
        distinct_macs(upsert(list, b)),
        forall|i: int|
            0 <= i < list.len() && list[i].mac != b.mac ==> #[trigger] upsert(list, b)[i] == list[i],
        exists|i: int| 0 <= i < upsert(list, b).len() && #[trigger] upsert(list, b)[i] == b,
{
    lemma_mac_index(list, b.mac);
    let k = mac_index(list, b.mac);
    let out = upsert(list, b);
    if k < 0 {
        assert(out[list.len() as int] == b);
    } else {
        assert(out[k] == b);
    }
    assert forall|i: int, j: int| 0 <= i < j < out.len() implies #[trigger] out[i].mac
        != #[trigger] out[j].mac by {
        if k < 0 {
            if j == list.len() {
                assert(out[i] == list[i]);
            } else {
                assert(out[i] == list[i] && out[j] == list[j]);
            }
        } else if i == k {
            assert(out[j] == list[j]);
            assert(list[k].mac != list[j].mac);
        } else if j == k {
            assert(out[i] == list[i]);
            assert(list[i].mac != list[k].mac);
        } else {
            assert(out[i] == list[i] && out[j] == list[j]);
        }
    }
}

proof fn lemma_scanned_distinct(local_ip: Seq<char>, replies: Seq<Reply>)
    ensures
        distinct_macs(scanned(local_ip, replies)),
    decreases replies.len(),
{
    if replies.len() > 0 {
        lemma_scanned_distinct(local_ip, replies.drop_last());
        let r = replies.last();
        if r.ip@ != local_ip {
            match dev_info_bulb(r.ip@, r.data@) {
                Some(b) => lemma_upsert_distinct(scanned(local_ip, replies.drop_last()), b),
                None => {},
            }
        }
    }
}

proof fn lemma_merged_distinct(previous: Seq<BulbView>, found: Seq<BulbView>)
    requires
        distinct_macs(found),
    ensures
        distinct_macs(merged(previous, found)),
{
    let out = merged(previous, found);
    assert forall|i: int, j: int| 0 <= i < j < out.len() implies #[trigger] out[i].mac
        != #[trigger] out[j].mac by {
        assert(out[i].mac == found[i].mac && out[j].mac == found[j].mac);
    }
}

/// The name that the latest entry for `mac` in `previous` carries.
pub open spec fn kept_name(previous: Seq<BulbView>, mac: Seq<char>) -> Option<Seq<char>>
    decreases previous.len(),
{
    if previous.len() == 0 {
        None
    } else if previous.last().mac == mac {
        Some(previous.last().name)
    } else {
        kept_name(previous.drop_last(), mac)
    }
}

/// A freshly found bulb, with the name that `previous` gave its mac, if any.
pub open spec fn renamed(previous: Seq<BulbView>, b: BulbView) -> BulbView {
    match kept_name(previous, b.mac) {
        Some(name) => BulbView { ip: b.ip, name, mac: b.mac },
        None => b,
    }
}

/// The registry after a scan: exactly the bulbs found, each keeping the name
/// that the previous registry held for its mac.
pub open spec fn merged(previous: Seq<BulbView>, found: Seq<BulbView>) -> Seq<BulbView> {
    Seq::new(found.len(), |i: int| renamed(previous, found[i]))
}

/// The bulb that one reply of a scan announces, unless it is the host's own
/// echo or does not parse.
pub fn accept_reply(local_ip: &str, reply: &Reply) -> (r: Option<Bulb>)
    ensures
        match r {
            Some(b) => reply.ip@ != local_ip@ && dev_info_bulb(reply.ip@, reply.data@) == Some(b@),
            None => reply.ip@ == local_ip@ || dev_info_bulb(reply.ip@, reply.data@).is_none(),
        },
{
    let own = String::from_str(local_ip);
    if reply.ip == own {
        return None;
    }
    match parse_dev_info(reply.ip.clone(), reply.data.as_slice()) {
        Ok(b) => Some(b),
        Err(_) => None,
    }
}

/// The position of the latest entry for `mac` in `list`.
fn find_mac(list: &Vec<Bulb>, mac: &String) -> (r: Option<usize>)
    ensures
        match r {
            Some(k) => k as int == mac_index(views(list@), mac@),
            None => mac_index(views(list@), mac@) < 0,
        },
{
    let mut i: usize = list.len();
    assert(list@.subrange(0, i as int) =~= list@);
    while i > 0
        invariant
            i <= list@.len(),
            mac_index(views(list@), mac@) == mac_index(views(list@.subrange(0, i as int)), mac@),
        decreases i,
    {
        let ghost prefix = views(list@.subrange(0, i as int));
        assert(prefix.last() == list@[i - 1]@);
        assert(prefix.drop_last() =~= views(list@.subrange(0, i - 1)));
        if list[i - 1].mac == *mac {
            return Some(i - 1);
        }
        i = i - 1;
    }
    assert(views(list@.subrange(0, 0)) =~= Seq::<BulbView>::empty());
    None
}

/// The bulbs that the replies of one scan announce, one entry per mac.
pub fn collect_replies(local_ip: &str, replies: &Vec<Reply>) -> (r: Vec<Bulb>)
    ensures
        views(r@) == scanned(local_ip@, replies@),
        forall|i: int, j: int| 0 <= i < j < r@.len() ==> #[trigger] r@[i].mac@ != #[trigger] r@[j].mac@,
{
    let mut found: Vec<Bulb> = Vec::new();
    let mut i: usize = 0;
    while i < replies.len()
        invariant
            i <= replies@.len(),
            views(found@) == scanned(local_ip@, replies@.subrange(0, i as int)),
        decreases replies@.len() - i,
    {
        assert(replies@.subrange(0, i + 1).drop_last() =~= replies@.subrange(0, i as int));
        let ghost before = found@;
        match accept_reply(local_ip, &replies[i]) {
            Some(b) => {
                match find_mac(&found, &b.mac) {
                    Some(k) => {
                        proof {
                            lemma_mac_index(views(found@), b.mac@);
                        }
                        found[k] = b;
                        assert(views(found@) =~= views(before).update(k as int, b@));
                    },
                    None => {
                        found.push(b);
                        assert(views(found@) =~= views(before).push(b@));
                    },
                }
            },
            None => {},
        }
        i = i + 1;
    }
    assert(replies@.subrange(0, i as int) =~= replies@);
    proof {
        lemma_scanned_distinct(local_ip@, replies@);
        assert forall|i: int, j: int| 0 <= i < j < found@.len() implies #[trigger] found@[i].mac@
            != #[trigger] found@[j].mac@ by {
            assert(views(found@)[i] == found@[i]@ && views(found@)[j] == found@[j]@);
            assert(views(found@)[i].mac != views(found@)[j].mac);
        }
    }
    found
}

/// The name that the latest entry for `mac` in `previous` carries.
fn find_kept_name(previous: &Vec<Bulb>, mac: &String) -> (r: Option<String>)
    ensures
        match r {
            Some(n) => kept_name(views(previous@), mac@) == Some(n@),
            None => kept_name(views(previous@), mac@).is_none(),
        },
{
    let mut i: usize = previous.len();
    assert(previous@.subrange(0, i as int) =~= previous@);
    while i > 0
        invariant
            i <= previous@.len(),
            kept_name(views(previous@), mac@) == kept_name(views(previous@.subrange(0, i as int)), mac@),
        decreases i,
    {
        let ghost prefix = views(previous@.subrange(0, i as int));
        assert(prefix.last() == previous@[i - 1]@);
        assert(prefix.drop_last() =~= views(previous@.subrange(0, i - 1)));
        if previous[i - 1].mac == *mac {
            return Some(previous[i - 1].name.clone());
        }
        i = i - 1;
    }
    assert(views(previous@.subrange(0, 0)) =~= Seq::<BulbView>::empty());
    None
}

/// Replaces a registry by the bulbs of a fresh scan, keeping the name that the
/// user gave to each mac that is found again.
pub fn merge_names(previous: &Vec<Bulb>, found: Vec<Bulb>) -> (r: Vec<Bulb>)
    ensures
        views(r@) == merged(views(previous@), views(found@)),
        distinct_macs(views(found@)) ==> distinct_macs(views(r@)),
{
    let mut out: Vec<Bulb> = Vec::new();
    let mut i: usize = 0;
    while i < found.len()
        invariant
            i <= found@.len(),
            out@.len() == i,
            forall|k: int| 0 <= k < i ==> #[trigger] out@[k]@ == renamed(views(previous@), found@[k]@),
        decreases found@.len() - i,
    {
        let b = &found[i];
        let name = match find_kept_name(previous, &b.mac) {
            Some(n) => n,
            None => b.name.clone(),
        };
        out.push(Bulb { ip: b.ip.clone(), name, mac: b.mac.clone() });
        i = i + 1;
    }
    assert(views(out@) =~= merged(views(previous@), views(found@)));
    proof {
        if distinct_macs(views(found@)) {
            lemma_merged_distinct(views(previous@), views(found@));
        }
    }
    out
}

/// The registry after a scan: the bulbs that answered, other than the host
/// itself, one entry per mac, with the names that `previous` gave their macs.
pub fn refresh_registry(previous: &Vec<Bulb>, local_ip: &str, replies: &Vec<Reply>) -> (r: Vec<Bulb>)
    ensures
        views(r@) == merged(views(previous@), scanned(local_ip@, replies@)),
        forall|i: int, j: int| 0 <= i < j < r@.len() ==> #[trigger] r@[i].mac@ != #[trigger] r@[j].mac@,
{
    let found = collect_replies(local_ip, replies);
    proof {
        lemma_scanned_distinct(local_ip@, replies@);
    }
    let r = merge_names(previous, found);
    assert forall|i: int, j: int| 0 <= i < j < r@.len() implies #[trigger] r@[i].mac@
        != #[trigger] r@[j].mac@ by {
        assert(views(r@)[i] == r@[i]@ && views(r@)[j] == r@[j]@);
        assert(views(r@)[i].mac != views(r@)[j].mac);
    }
    r
}


proof fn lemma_scanned_excludes_self(local_ip: Seq<char>, replies: Seq<Reply>)
    ensures
        forall|i: int|
            0 <= i < scanned(local_ip, replies).len() ==> #[trigger] scanned(local_ip, replies)[i].ip
                != local_ip,
    decreases replies.len(),
{
    if replies.len() > 0 {
        let earlier = scanned(local_ip, replies.drop_last());
        lemma_scanned_excludes_self(local_ip, replies.drop_last());
        let r = replies.last();
        if r.ip@ != local_ip {
            match dev_info_bulb(r.ip@, r.data@) {
                Some(b) => {
                    lemma_mac_index(earlier, b.mac);
                    let out = upsert(earlier, b);
                    assert forall|i: int| 0 <= i < out.len() implies #[trigger] out[i].ip != local_ip by {
                        if out[i] != b {
                            assert(out[i] == earlier[i]);
                        }
                    }
                },
                None => {},
            }
        }
    }
}

/// A scan never lists the host itself, whatever the previous registry and
/// whatever arrived.
pub proof fn discovery_excludes_self(previous: Seq<BulbView>, local_ip: Seq<char>, replies: Seq<Reply>)
    ensures
        forall|i: int|
            0 <= i < merged(previous, scanned(local_ip, replies)).len() ==> #[trigger] merged(
                previous,
                scanned(local_ip, replies),
            )[i].ip != local_ip,
{
    lemma_scanned_excludes_self(local_ip, replies);
}

/// The registry after a run of scans, one list of replies each, the last
/// scan last.
pub open spec fn after_scans(registry: Seq<BulbView>, local_ip: Seq<char>, scans: Seq<Seq<Reply>>) -> Seq<
    BulbView,
>
    decreases scans.len(),
{
    if scans.len() == 0 {
        registry
    } else {
        merged(after_scans(registry, local_ip, scans.drop_last()), scanned(local_ip, scans.last()))
    }
}

/// `registry` holds an entry for `mac`.
pub open spec fn lists_mac(registry: Seq<BulbView>, mac: Seq<char>) -> bool {
    exists|i: int| 0 <= i < registry.len() && #[trigger] registry[i].mac == mac
}

proof fn lemma_kept_name(previous: Seq<BulbView>, j: int)
    requires
        distinct_macs(previous),
        0 <= j < previous.len(),
    ensures
        kept_name(previous, previous[j].mac) == Some(previous[j].name),
    decreases previous.len(),
{
    if j != previous.len() - 1 {
        let rest = previous.drop_last();
        assert(previous.last().mac != previous[j].mac);
        assert(rest[j] == previous[j]);
        assert(distinct_macs(rest)) by {
            assert forall|a: int, b: int| 0 <= a < b < rest.len() implies #[trigger] rest[a].mac
                != #[trigger] rest[b].mac by {
                assert(rest[a] == previous[a] && rest[b] == previous[b]);
            }
        }
        lemma_kept_name(rest, j);
    }
}

/// A later reply to a scan for a mac replaces the earlier ones: the scan lists
/// the bulb that the last parsing reply for that mac announces, at the address
/// that reply came from.
pub proof fn scan_lists_latest_reply(local_ip: Seq<char>, replies: Seq<Reply>, t: int)
    requires
        0 <= t < replies.len(),
        replies[t].ip@ != local_ip,
        dev_info_bulb(replies[t].ip@, replies[t].data@) is Some,
        forall|u: int|
            t < u < replies.len() && replies[u].ip@ != local_ip ==> match #[trigger] dev_info_bulb(
                replies[u].ip@,
                replies[u].data@,
            ) {
                Some(b) => b.mac != dev_info_bulb(replies[t].ip@, replies[t].data@)->0.mac,
                None => true,
            },
    ensures
        exists|i: int|
            0 <= i < scanned(local_ip, replies).len() && #[trigger] scanned(local_ip, replies)[i]
                == dev_info_bulb(replies[t].ip@, replies[t].data@)->0,
    decreases replies.len(),
{
    let want = dev_info_bulb(replies[t].ip@, replies[t].data@)->0;
    let earlier = replies.drop_last();
    let found = scanned(local_ip, earlier);
    let r = replies.last();
    lemma_scanned_distinct(local_ip, earlier);
    if t == replies.len() - 1 {
        assert(r == replies[t]);
        assert(scanned(local_ip, replies) == upsert(found, want));
        lemma_upsert_distinct(found, want);
        let i = choose|i: int| 0 <= i < upsert(found, want).len() && #[trigger] upsert(found, want)[i] == want;
        assert(scanned(local_ip, replies)[i] == want);
    } else {
        assert(earlier[t] == replies[t]);
        assert forall|u: int|
            t < u < earlier.len() && earlier[u].ip@ != local_ip implies match #[trigger] dev_info_bulb(
            earlier[u].ip@,
            earlier[u].data@,
        ) {
            Some(b) => b.mac != want.mac,
            None => true,
        } by {
            assert(earlier[u] == replies[u]);
        }
        scan_lists_latest_reply(local_ip, earlier, t);
        let i = choose|i: int| 0 <= i < found.len() && #[trigger] found[i] == want;
        if r.ip@ != local_ip {
            match dev_info_bulb(r.ip@, r.data@) {
                Some(b) => {
                    assert(dev_info_bulb(replies[replies.len() - 1].ip@, replies[replies.len() - 1].data@)
                        == Some(b));
                    lemma_upsert_distinct(found, b);
                    lemma_mac_index(found, b.mac);
                    assert(scanned(local_ip, replies) == upsert(found, b));
                    assert(upsert(found, b)[i] == want);
                    assert(scanned(local_ip, replies)[i] == want);
                },
                None => {
                    assert(scanned(local_ip, replies) == found);
                    assert(scanned(local_ip, replies)[i] == want);
                },
            }
        } else {
            assert(scanned(local_ip, replies) == found);
            assert(scanned(local_ip, replies)[i] == want);
        }
    }
}

/// A rescan keeps a name the user gave: in a registry with one entry per mac,
/// the bulb found again under a mac keeps that mac's name, takes the address
/// that the scan saw, and is the only entry for the mac.
pub proof fn rename_kept_on_rescan(previous: Seq<BulbView>, local_ip: Seq<char>, replies: Seq<Reply>, j: int, i: int)
    requires
        distinct_macs(previous),
        0 <= j < previous.len(),
        0 <= i < scanned(local_ip, replies).len(),
        scanned(local_ip, replies)[i].mac == previous[j].mac,
    ensures
        merged(previous, scanned(local_ip, replies))[i].mac == previous[j].mac,
        merged(previous, scanned(local_ip, replies))[i].name == previous[j].name,
        merged(previous, scanned(local_ip, replies))[i].ip == scanned(local_ip, replies)[i].ip,
        distinct_macs(merged(previous, scanned(local_ip, replies))),
{
    lemma_kept_name(previous, j);
    lemma_scanned_distinct(local_ip, replies);
    lemma_merged_distinct(previous, scanned(local_ip, replies));
}

/// A name that the user gave to a bulb survives any number of rescans that
/// find the bulb again: in a registry with one entry per mac, after each scan
/// the one entry for the mac carries the name, at the address the last scan
/// saw.
pub proof fn rename_survives_rescans(
    registry: Seq<BulbView>,
    local_ip: Seq<char>,
    scans: Seq<Seq<Reply>>,
    j: int,
)
    requires
        distinct_macs(registry),
        0 <= j < registry.len(),
        forall|k: int|
            0 <= k < scans.len() ==> lists_mac(#[trigger] scanned(local_ip, scans[k]), registry[j].mac),
    ensures
        distinct_macs(after_scans(registry, local_ip, scans)),
        exists|i: int|
            0 <= i < after_scans(registry, local_ip, scans).len() && #[trigger] after_scans(
                registry,
                local_ip,
                scans,
            )[i].mac == registry[j].mac && after_scans(registry, local_ip, scans)[i].name
                == registry[j].name,
        scans.len() > 0 ==> forall|i: int, f: int|
            0 <= i < after_scans(registry, local_ip, scans).len() && 0 <= f < scanned(
                local_ip,
                scans.last(),
            ).len() && #[trigger] after_scans(registry, local_ip, scans)[i].mac == registry[j].mac
                && #[trigger] scanned(local_ip, scans.last())[f].mac == registry[j].mac
                ==> after_scans(registry, local_ip, scans)[i].ip == scanned(local_ip, scans.last())[f].ip,
    decreases scans.len(),
{
    if scans.len() == 0 {
        assert(after_scans(registry, local_ip, scans)[j].mac == registry[j].mac);
    } else {
        let rest = scans.drop_last();
        assert forall|k: int| 0 <= k < rest.len() implies lists_mac(
            #[trigger] scanned(local_ip, rest[k]),
            registry[j].mac,
        ) by {
            assert(rest[k] == scans[k]);
        }
        rename_survives_rescans(registry, local_ip, rest, j);
        let before = after_scans(registry, local_ip, rest);
        let found = scanned(local_ip, scans.last());
        let j0 = choose|i: int| 0 <= i < before.len() && #[trigger] before[i].mac == registry[j].mac
            && before[i].name == registry[j].name;
        assert(lists_mac(found, registry[j].mac)) by {
            assert(scans.last() == scans[scans.len() - 1]);
        }
        let i = choose|i: int| 0 <= i < found.len() && #[trigger] found[i].mac == registry[j].mac;
        rename_kept_on_rescan(before, local_ip, scans.last(), j0, i);
        let after = merged(before, found);
        assert(after_scans(registry, local_ip, scans) == after);
        assert(after[i].mac == registry[j].mac && after[i].name == registry[j].name);
        lemma_scanned_distinct(local_ip, scans.last());
        assert forall|a: int, f: int|
            0 <= a < after.len() && 0 <= f < found.len() && #[trigger] after[a].mac == registry[j].mac
                && #[trigger] found[f].mac == registry[j].mac implies after[a].ip == found[f].ip by {
            assert(after[a].mac == found[a].mac);
            if a != f {
                if a < f {
                    assert(found[a].mac != found[f].mac);
                } else {
                    assert(found[f].mac != found[a].mac);
                }
            }
        }
    }
}

} // verus!
