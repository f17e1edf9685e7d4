//! Choosing where to connect: flattening an MX answer into an ordered host
//! list (preference order, equal-preference exchanges shuffled), and pairing
//! a host's resolved addresses with a source address.

use vstd::prelude::*;
use vstd::string::StringExecFns;

use crate::host::{Ip, RemoteHost};
use crate::random::{pick_index, shuffle_strings};
use crate::status::{Error, Status};

verus! {

/// One MX answer: a preference level and its exchanges.
#[derive(Clone, Debug)]
pub struct MxRecord {
    pub preference: u16,
    pub exchanges: Vec<String>,
}

/// The exchange lists of an MX answer, in preference order.
pub open spec fn group_views(mx_list: Seq<MxRecord>) -> Seq<Seq<String>> {
    mx_list.map_values(|r: MxRecord| r.exchanges@)
}

/// `out` is the concatenation, group by group in order, of one permutation
/// of each group.
pub open spec fn group_perm(out: Seq<String>, groups: Seq<Seq<String>>) -> bool
    decreases groups.len(),
{
    if groups.len() == 0 {
        out.len() == 0
    } else {
        &&& out.len() >= groups[0].len()
        &&& out.take(groups[0].len() as int).to_multiset() == groups[0].to_multiset()
        &&& group_perm(out.skip(groups[0].len() as int), groups.drop_first())
    }
}

proof fn lemma_group_perm_extend(out: Seq<String>, groups: Seq<Seq<String>>, extra: Seq<String>, g: Seq<String>)
    requires
        group_perm(out, groups),
        extra.to_multiset() == g.to_multiset(),
    ensures
        group_perm(out + extra, groups.push(g)),
    decreases groups.len(),
{
    broadcast use vstd::seq_lib::group_to_multiset_ensures;

    if groups.len() == 0 {
        assert(extra.len() == g.len()) by {
            extra.to_multiset_ensures();
            g.to_multiset_ensures();
            assert(extra.to_multiset().len() == g.to_multiset().len());
        }
        assert(out + extra =~= extra);
        assert(groups.push(g)[0] == g);
        assert((out + extra).take(g.len() as int) =~= extra);
        assert((out + extra).skip(g.len() as int) =~= Seq::<String>::empty());
        assert(groups.push(g).drop_first() =~= Seq::<Seq<String>>::empty());
        assert(group_perm(Seq::<String>::empty(), Seq::<Seq<String>>::empty()));
        assert((out + extra).skip(g.len() as int) == Seq::<String>::empty());
    } else {
        let k = groups[0].len() as int;
        assert((out + extra).take(k) =~= out.take(k));
        assert((out + extra).skip(k) =~= out.skip(k) + extra);
        lemma_group_perm_extend(out.skip(k), groups.drop_first(), extra, g);
        assert(groups.push(g).drop_first() =~= groups.drop_first().push(g));
        assert(groups.push(g)[0] == groups[0]);
    }
}

/// A copy of one record's exchanges in a fresh order: same names, same
/// count, order drawn at random.
fn shuffled_exchanges(rec: &MxRecord) -> (r: Vec<String>)
    ensures
        r@.to_multiset() == rec.exchanges@.to_multiset(),
        r@.len() == rec.exchanges@.len(),
{
    let mut v: Vec<String> = Vec::new();
    let mut i: usize = 0;
    while i < rec.exchanges.len()
        invariant
            i <= rec.exchanges@.len(),
            v@ =~= rec.exchanges@.take(i as int),
        decreases rec.exchanges@.len() - i,
    {
        v.push(rec.exchanges[i].clone());
        proof {
            assert(v@ =~= rec.exchanges@.take(i + 1 as int));
        }
        i = i + 1;
    }
    proof {
        assert(v@ =~= rec.exchanges@);
    }
    shuffle_strings(&mut v);
    v
}

/// Every exchange of every record, one permutation per preference group,
/// groups in answer order.
fn expand_mx(mx_list: &Vec<MxRecord>) -> (r: Vec<String>)
    ensures
        group_perm(r@, group_views(mx_list@)),
{
    let mut out: Vec<String> = Vec::new();
    let mut g: usize = 0;
    proof {
        assert(group_views(mx_list@.take(0)) =~= Seq::<Seq<String>>::empty());
    }
    while g < mx_list.len()
        invariant
            g <= mx_list@.len(),
            group_perm(out@, group_views(mx_list@.take(g as int))),
        decreases mx_list@.len() - g,
    {
        let ghost out_before = out@;
        let mut shuffled = shuffled_exchanges(&mx_list[g]);
        let ghost extra = shuffled@;
        out.append(&mut shuffled);
        proof {
            lemma_group_perm_extend(
                out_before,
                group_views(mx_list@.take(g as int)),
                extra,
                mx_list@[g as int].exchanges@,
            );
            assert(group_views(mx_list@.take(g + 1 as int)) =~= group_views(
                mx_list@.take(g as int),
            ).push(mx_list@[g as int].exchanges@));
        }
        g = g + 1;
    }
    proof {
        assert(mx_list@.take(mx_list@.len() as int) =~= mx_list@);
    }
    out
}

/// `min(a, b)` over plain sizes.
pub open spec fn min_size(a: int, b: int) -> int {
    if a < b {
        a
    } else {
        b
    }
}

/// What a planned host list says of the MX answer it came from: an empty
/// answer leaves the domain itself as the one implicit exchange; otherwise
/// the list is a per-group permutation of the exchanges in preference
/// order, cut to `max_mx`.
pub open spec fn hosts_planned(
    hosts: Seq<RemoteHost>,
    domain: Seq<char>,
    mx_list: Seq<MxRecord>,
    max_mx: int,
) -> bool {
    if mx_list.len() == 0 {
        hosts.len() == 1 && (hosts[0] matches RemoteHost::MX(h) && h@ == domain)
    } else {
        exists|expanded: Seq<String>|
            {
                &&& #[trigger] group_perm(expanded, group_views(mx_list))
                &&& hosts.len() == min_size(max_mx, expanded.len() as int)
                &&& forall|i: int|
                    0 <= i < hosts.len() ==> ((#[trigger] hosts[i]) matches RemoteHost::MX(h)
                        && h@ == expanded[i]@)
            }
    }
}

/// The ordered host list one delivery attempt will walk for `domain`: the
/// MX answer flattened in preference order with equal-preference exchanges
/// shuffled and at most `max_mx` kept; an empty answer falls back to the
/// domain itself as an implicit exchange.
pub fn plan_remote_hosts(domain: &str, mx_list: &Vec<MxRecord>, max_mx: usize) -> (r: Vec<
    RemoteHost,
>)
    ensures
        hosts_planned(r@, domain@, mx_list@, max_mx as int),
    {
    if mx_list.len() == 0 {
        let mut r: Vec<RemoteHost> = Vec::new();
        r.push(RemoteHost::MX(domain.to_owned()));
        return r;
    } else {
        let expanded = expand_mx(mx_list);
        let mut r: Vec<RemoteHost> = Vec::new();
        let mut i: usize = 0;
        while i < expanded.len() && r.len() < max_mx
            invariant
                i <= expanded@.len(),
                r@.len() == i || (r@.len() == max_mx && i >= max_mx),
                r@.len() == min_size(i as int, max_mx as int),
                forall|j: int|
                    0 <= j < r@.len() ==> ((#[trigger] r@[j]) matches RemoteHost::MX(h) && h@
                        == expanded@[j]@),
            decreases expanded@.len() - i,
        {
            r.push(RemoteHost::MX(expanded[i].clone()));
            i = i + 1;
        }
        proof {
            let expanded_view = expanded@;
            assert(group_perm(expanded_view, group_views(mx_list@)));
            assert(r@.len() == min_size(max_mx as int, expanded_view.len() as int));
            assert(hosts_planned(r@, domain@, mx_list@, max_mx as int));
        }
        r
    }
}

/// The source-address pool matching the family of the first resolved
/// address.
pub open spec fn source_pool(ips: Seq<Ip>, v4: Seq<Ip>, v6: Seq<Ip>) -> Seq<Ip> {
    if ips[0].spec_is_ipv4() {
        v4
    } else {
        v6
    }
}

/// How the source address is drawn from the pool matching the first remote
/// address's family: none configured leaves the choice to the stack, one is
/// taken as is, several are drawn from at random.
pub open spec fn source_chosen(source: Option<Ip>, ips: Seq<Ip>, v4: Seq<Ip>, v6: Seq<Ip>) -> bool {
    &&& (source_pool(ips, v4, v6).len() == 0 ==> source is None)
    &&& (source_pool(ips, v4, v6).len() == 1 ==> source == Some(source_pool(ips, v4, v6)[0]))
    &&& (source_pool(ips, v4, v6).len() > 1 ==> exists|i: int|
        0 <= i < source_pool(ips, v4, v6).len() && source == Some(
            #[trigger] source_pool(ips, v4, v6)[i],
        ))
}

/// The note recorded when a host resolves to no usable address: the host
/// name stands in quotes.
pub open spec fn spec_no_ip_note(mx: Seq<char>) -> Seq<char> {
    "No IP addresses found for \""@ + mx + "\"."@
}

/// Pairs a host's resolved addresses with a source address: keeps at most
/// `max_multihomed` remote addresses in resolver order, and draws the
/// source from the configured pool matching the first address's family —
/// none configured means the stack chooses, one is taken as is, several are
/// drawn from at random. No address at all is a temporary resolver failure.
#[verifier::rlimit(50)]
pub fn resolve_host(
    mx: &str,
    ips: &Vec<Ip>,
    source_ipv4: &Vec<Ip>,
    source_ipv6: &Vec<Ip>,
    max_multihomed: usize,
) -> (r: Result<(Option<Ip>, Vec<Ip>), Status>)
    requires
        forall|i: int| 0 <= i < source_ipv4@.len() ==> (#[trigger] source_ipv4@[i]) is V4,
        forall|i: int| 0 <= i < source_ipv6@.len() ==> (#[trigger] source_ipv6@[i]) is V6,
    ensures
        match r {
            Result::Ok(pair) => {
                let source = pair.0;
                let remote = pair.1;
                &&& ips@.len() > 0
                &&& max_multihomed > 0
                &&& remote@ == ips@.take(min_size(max_multihomed as int, ips@.len() as int))
                &&& source_chosen(source, ips@, source_ipv4@, source_ipv6@)
                &&& (source matches Some(ip) ==> (ip is V4 <==> ips@[0] is V4))
            },
            Result::Err(s) => (ips@.len() == 0 || max_multihomed == 0) && (s matches
                Status::TemporaryFailure(e) && (e matches Error::DnsError(m) && m@
                == spec_no_ip_note(mx@))),
        },
{
    let mut remote: Vec<Ip> = Vec::new();
    let mut i: usize = 0;
    while i < ips.len() && remote.len() < max_multihomed
        invariant
            i <= ips@.len(),
            remote@.len() == min_size(i as int, max_multihomed as int),
            remote@ =~= ips@.take(remote@.len() as int),
        decreases ips@.len() - i,
    {
        remote.push(ips[i]);
        proof {
            assert(remote@ =~= ips@.take(remote@.len() as int));
        }
        i = i + 1;
    }
    if remote.len() == 0 {
        let mut note = String::new();
        note.append("No IP addresses found for \"");
        note.append(mx);
        note.append("\".");
        return Err(Status::TemporaryFailure(Error::DnsError(note)));
    }
    proof {
        assert(remote@ =~= ips@.take(min_size(max_multihomed as int, ips@.len() as int)));
        assert(remote@[0] == ips@[0]);
    }
    let first_v4 = remote[0].is_ipv4();
    let pool = if first_v4 {
        source_ipv4
    } else {
        source_ipv6
    };
    let source: Option<Ip> = if pool.len() == 0 {
        None
    } else if pool.len() == 1 {
        Some(pool[0])
    } else {
        let idx = pick_index(pool.len());
        let s = Some(pool[idx]);
        proof {
            assert((idx as int) < pool@.len() && s == Some(pool@[idx as int]));
        }
        s
    };
    proof {
        assert(remote@ == ips@.take(min_size(max_multihomed as int, ips@.len() as int))) by {
            assert(remote@ =~= ips@.take(min_size(max_multihomed as int, ips@.len() as int)));
        }
        assert(source_pool(ips@, source_ipv4@, source_ipv6@) == pool@);
    }
    Ok((source, remote))
}

} // verus!
