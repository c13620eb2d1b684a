//! A cache of resolved names.
//!
//! Time is a number of nanoseconds that the caller reads off a clock that never goes back.

use vstd::hash_map::StringHashMap;
use vstd::prelude::*;

use crate::clock;
use crate::clock::nanos;
use crate::net;
use crate::net::{parse_ip, IpAddr};
use crate::server::config::ServerConfig;
use crate::text::same_text;

verus! {

/// The order of a name's addresses.
#[derive(Debug, Clone, Copy, PartialEq, Eq, Structural)]
pub enum ResultOrder {
    Ipv4First,
    Ipv6First,
    Verbatim,
}

/// The order that a configuration names. Any other word leaves the order as it is.
pub open spec fn order_named(word: Seq<char>) -> ResultOrder {
    if word == "ipv4first"@ {
        ResultOrder::Ipv4First
    } else if word == "ipv6first"@ {
        ResultOrder::Ipv6First
    } else {
        ResultOrder::Verbatim
    }
}

/// Why a name has no address.
#[derive(Debug)]
pub enum DnsError {
    /// The resolver failed.
    ResolveFailed(String),
    /// The resolver found the name, but no address.
    NoAddresses(String),
}

impl DnsError {
    /// The error in words.
    pub fn message(&self) -> (r: String)
        ensures
            r@ == match *self {
                DnsError::ResolveFailed(what) => "DNS resolution failed: "@ + what@,
                DnsError::NoAddresses(name) => "No addresses returned for "@ + name@,
            },
    {
        match self {
            DnsError::ResolveFailed(what) => "DNS resolution failed: ".to_owned().concat(
                what.as_str(),
            ),
            DnsError::NoAddresses(name) => "No addresses returned for ".to_owned().concat(
                name.as_str(),
            ),
        }
    }
}

/// The addresses of a name, and until when they count.
struct CacheEntry {
    addrs: Vec<IpAddr>,
    expires_at: u128,
}

/// The addresses of a name, and until when they count, as a mathematical value.
#[verifier::ext_equal]
pub struct EntryView {
    pub addrs: Seq<IpAddr>,
    pub expires_at: int,
}

/// The names that a worker has resolved.
pub struct DnsCache {
    index: StringHashMap<usize>,
    entries: Vec<(String, CacheEntry)>,
    ttl_secs: u64,
    order: ResultOrder,
}

impl View for DnsCache {
    type V = Map<Seq<char>, EntryView>;

    closed spec fn view(&self) -> Map<Seq<char>, EntryView> {
        Map::new(
            |name: Seq<char>| self.index@.contains_key(name),
            |name: Seq<char>| entry_view(self.entries@[self.index@[name] as int].1),
        )
    }
}

/// The value of an entry.
closed spec fn entry_view(entry: CacheEntry) -> EntryView {
    EntryView { addrs: entry.addrs@, expires_at: entry.expires_at as int }
}

/// Addresses without the repetitions of a neighbour.
pub open spec fn deduped(addrs: Seq<IpAddr>) -> Seq<IpAddr>
    decreases addrs.len(),
{
    if addrs.len() <= 1 {
        addrs
    } else {
        let before = deduped(addrs.drop_last());
        if addrs.last() == addrs[addrs.len() - 2] {
            before
        } else {
            before.push(addrs.last())
        }
    }
}

/// The addresses of one version, in order.
pub open spec fn of_version(addrs: Seq<IpAddr>, v4: bool) -> Seq<IpAddr> {
    addrs.filter(|a: IpAddr| (a is V4) == v4)
}

/// Addresses in an order. Within a version they stay as they were.
pub open spec fn ordered(addrs: Seq<IpAddr>, order: ResultOrder) -> Seq<IpAddr> {
    match order {
        ResultOrder::Ipv4First => of_version(addrs, true) + of_version(addrs, false),
        ResultOrder::Ipv6First => of_version(addrs, false) + of_version(addrs, true),
        ResultOrder::Verbatim => addrs,
    }
}

/// What a resolver's addresses are kept as.
pub open spec fn kept(addrs: Seq<IpAddr>, order: ResultOrder) -> Seq<IpAddr> {
    ordered(deduped(addrs), order)
}

/// The first address of a name, if it still counts.
pub open spec fn cached(cache: Map<Seq<char>, EntryView>, name: Seq<char>, now: int) -> Option<
    IpAddr,
> {
    if cache.contains_key(name) && now < cache[name].expires_at {
        Some(cache[name].addrs[0])
    } else {
        None
    }
}

/// Dropping repetitions leaves something of something.
proof fn lemma_deduped(addrs: Seq<IpAddr>)
    requires
        addrs.len() > 0,
    ensures
        0 < deduped(addrs).len() <= addrs.len(),
        deduped(addrs).last() == addrs.last(),
        deduped(addrs)[0] == addrs[0],
    decreases addrs.len(),
{
    if addrs.len() > 1 {
        lemma_deduped(addrs.drop_last());
    }
}

/// Ordering keeps the number of addresses.
proof fn lemma_ordered_len(addrs: Seq<IpAddr>, order: ResultOrder)
    ensures
        ordered(addrs, order).len() == addrs.len(),
    decreases addrs.len(),
{
    reveal(Seq::filter);
    if addrs.len() > 0 {
        lemma_ordered_len(addrs.drop_last(), order);
    }
}

/// The addresses of one version, in order.
fn select_version(addrs: &Vec<IpAddr>, v4: bool) -> (r: Vec<IpAddr>)
    ensures
        r@ == of_version(addrs@, v4),
{
    let mut out: Vec<IpAddr> = Vec::new();
    let mut i: usize = 0;
    proof {
        reveal(Seq::filter);
        assert(addrs@.take(0) == Seq::<IpAddr>::empty());
    }
    while i < addrs.len()
        invariant
            i <= addrs@.len(),
            out@ == of_version(addrs@.take(i as int), v4),
        decreases addrs@.len() - i,
    {
        let is_v4 = match addrs[i] {
            IpAddr::V4(_) => true,
            IpAddr::V6(_) => false,
        };
        proof {
            reveal(Seq::filter);
            assert(addrs@.take(i + 1).drop_last() == addrs@.take(i as int));
        }
        if is_v4 == v4 {
            out.push(addrs[i]);
        }
        i = i + 1;
    }
    proof {
        assert(addrs@.take(addrs@.len() as int) == addrs@);
    }
    out
}

/// Addresses without the repetitions of a neighbour.
fn dedup(addrs: &Vec<IpAddr>) -> (r: Vec<IpAddr>)
    ensures
        r@ == deduped(addrs@),
{
    let mut out: Vec<IpAddr> = Vec::new();
    let mut i: usize = 0;
    proof {
        assert(addrs@.take(0) == Seq::<IpAddr>::empty());
    }
    while i < addrs.len()
        invariant
            i <= addrs@.len(),
            out@ == deduped(addrs@.take(i as int)),
        decreases addrs@.len() - i,
    {
        proof {
            assert(addrs@.take(i + 1).drop_last() == addrs@.take(i as int));
            if i == 0 {
                assert(addrs@.take(1) == Seq::<IpAddr>::empty().push(addrs@[0]));
            }
        }
        if i == 0 || addrs[i] != addrs[i - 1] {
            out.push(addrs[i]);
        }
        i = i + 1;
    }
    proof {
        assert(addrs@.take(addrs@.len() as int) == addrs@);
    }
    out
}

/// What a resolver's addresses are kept as: without repetitions of a neighbour, and in order.
pub fn order_addresses(addrs: &Vec<IpAddr>, order: ResultOrder) -> (r: Vec<IpAddr>)
    ensures
        r@ == kept(addrs@, order),
{
    let once = dedup(addrs);
    match order {
        ResultOrder::Ipv4First => {
            let mut out = select_version(&once, true);
            let mut rest = select_version(&once, false);
            out.append(&mut rest);
            out
        },
        ResultOrder::Ipv6First => {
            let mut out = select_version(&once, false);
            let mut rest = select_version(&once, true);
            out.append(&mut rest);
            out
        },
        ResultOrder::Verbatim => once,
    }
}

/// What is known of a name.
#[derive(Debug, Clone, Copy, PartialEq, Eq, Structural)]
pub enum Lookup {
    /// Its address.
    Known(IpAddr),
    /// It has to be resolved.
    Resolve,
}

/// What is known of a name that may be an address itself and may be in the cache.
pub open spec fn known(address: Option<IpAddr>, cached: Option<IpAddr>) -> Lookup {
    match address {
        Some(ip) => Lookup::Known(ip),
        None => match cached {
            Some(ip) => Lookup::Known(ip),
            None => Lookup::Resolve,
        },
    }
}

/// What is known of a name that may be an address itself and may be in the cache.
pub fn choose_known(address: Option<IpAddr>, cached: Option<IpAddr>) -> (r: Lookup)
    ensures
        r == known(address, cached),
{
    match address {
        Some(ip) => Lookup::Known(ip),
        None => match cached {
            Some(ip) => Lookup::Known(ip),
            None => Lookup::Resolve,
        },
    }
}

impl DnsCache {
    /// How long a name is kept, in nanoseconds.
    pub closed spec fn ttl(&self) -> int {
        clock::nanos_of(self.ttl_secs)
    }

    /// The order in which addresses are kept.
    pub closed spec fn result_order(&self) -> ResultOrder {
        self.order
    }

    /// Every name has one entry, and every entry at least one address.
    pub closed spec fn wf(&self) -> bool {
        &&& forall|name: Seq<char>| #[trigger]
            self.index@.contains_key(name) ==> {
                &&& self.index@[name] < self.entries@.len()
                &&& self.entries@[self.index@[name] as int].0@ == name
            }
        &&& forall|i: int|
            0 <= i < self.entries@.len() ==> {
                &&& self.index@.contains_key((#[trigger] self.entries@[i]).0@)
                &&& self.index@[self.entries@[i].0@] == i
                &&& self.entries@[i].1.addrs@.len() > 0
            }
    }

    /// An empty cache.
    pub fn new(config: &ServerConfig) -> (r: Self)
        ensures
            r.wf(),
            r@ == Map::<Seq<char>, EntryView>::empty(),
            r.ttl() == clock::nanos_of(config.dns_ttl),
            r.result_order() == order_named(config@.dns_result_order),
    {
        let order = if same_text(config.dns_result_order.as_str(), "ipv4first") {
            ResultOrder::Ipv4First
        } else if same_text(config.dns_result_order.as_str(), "ipv6first") {
            ResultOrder::Ipv6First
        } else {
            ResultOrder::Verbatim
        };
        let r = DnsCache {
            index: StringHashMap::new(),
            entries: Vec::new(),
            ttl_secs: config.dns_ttl,
            order,
        };
        proof {
            assert(r@ == Map::<Seq<char>, EntryView>::empty());
        }
        r
    }

    /// Whether version 4 addresses come first.
    pub fn ipv4_first(&self) -> (r: bool)
        ensures
            r == (self.result_order() == ResultOrder::Ipv4First),
    {
        match self.order {
            ResultOrder::Ipv4First => true,
            _ => false,
        }
    }

    /// The first address of a name, if it is in the cache and still counts.
    pub fn get_cached(&self, hostname: &str, now: u64) -> (r: Option<IpAddr>)
        requires
            self.wf(),
        ensures
            r == cached(self@, hostname@, now as int),
    {
        match self.index.get(hostname) {
            Some(at) => {
                let entry = &self.entries[*at].1;
                if (now as u128) < entry.expires_at {
                    Some(entry.addrs[0])
                } else {
                    None
                }
            },
            None => None,
        }
    }

    /// Keeps the addresses of a name from now on, for as long as names are kept. The first of
    /// them comes back. A name without an address cannot be kept.
    pub fn insert_resolved(&mut self, hostname: &str, addrs: Vec<IpAddr>, now: u64) -> (r: IpAddr)
        requires
            old(self).wf(),
            addrs@.len() > 0,
        ensures
            final(self).wf(),
            final(self).ttl() == old(self).ttl(),
            final(self).result_order() == old(self).result_order(),
            final(self)@ == old(self)@.insert(
                hostname@,
                EntryView { addrs: addrs@, expires_at: now + old(self).ttl() },
            ),
            r == addrs@[0],
    {
        let first = addrs[0];
        let expires_at: u128 = now as u128 + nanos(self.ttl_secs);
        let entry = CacheEntry { addrs, expires_at };
        let ghost view = entry_view(entry);
        match self.index.get(hostname) {
            Some(at) => {
                let at: usize = *at;
                self.entries[at] = (hostname.to_owned(), entry);
            },
            None => {
                let at: usize = self.entries.len();
                self.entries.push((hostname.to_owned(), entry));
                self.index.insert(hostname.to_owned(), at);
            },
        }
        proof {
            let before = old(self);
            assert forall|name: Seq<char>| #[trigger] self.index@.contains_key(name) implies {
                &&& self.index@[name] < self.entries@.len()
                &&& self.entries@[self.index@[name] as int].0@ == name
            } by {
                if name != hostname@ {
                    assert(before.index@.contains_key(name));
                }
            }
            assert forall|i: int| 0 <= i < self.entries@.len() implies {
                &&& self.index@.contains_key((#[trigger] self.entries@[i]).0@)
                &&& self.index@[self.entries@[i].0@] == i
                &&& self.entries@[i].1.addrs@.len() > 0
            } by {
                if i < before.entries@.len() {
                    assert(before.index@.contains_key(before.entries@[i].0@));
                }
            }
            assert(self@ == before@.insert(hostname@, view));
        }
        first
    }

    /// Drops the names that no longer count.
    pub fn evict_expired(&mut self, now: u64)
        requires
            old(self).wf(),
        ensures
            final(self).wf(),
            final(self).ttl() == old(self).ttl(),
            final(self).result_order() == old(self).result_order(),
            final(self)@ == old(self)@.restrict(
                Set::new(
                    |name: Seq<char>|
                        old(self)@.contains_key(name) && now < old(self)@[name].expires_at,
                ),
            ),
    {
        let ghost before = *self;
        let mut entries: Vec<(String, CacheEntry)> = Vec::new();
        std::mem::swap(&mut entries, &mut self.entries);
        self.index.clear();
        let ghost all = entries@;
        proof {
            assert(all == before.entries@);
            assert(self@ == Map::<Seq<char>, EntryView>::empty());
        }
        while entries.len() > 0
            invariant
                before.wf(),
                all == before.entries@,
                entries@.len() <= all.len(),
                entries@ == all.take(entries@.len() as int),
                self.wf(),
                self.ttl_secs == before.ttl_secs,
                self.order == before.order,
                forall|name: Seq<char>| #[trigger]
                    self@.contains_key(name) <==> {
                        &&& before@.contains_key(name)
                        &&& before.index@[name] >= entries@.len()
                        &&& now < before@[name].expires_at
                    },
                forall|name: Seq<char>| #[trigger]
                    self@.contains_key(name) ==> self@[name] == before@[name],
            decreases entries@.len(),
        {
            let ghost held = *self;
            let ghost last = entries@.last();
            let ghost left = entries@.len() - 1;
            proof {
                assert(last == all[left]);
                assert(before.index@.contains_key(last.0@));
                assert(before@[last.0@] == entry_view(last.1));
            }
            match entries.pop() {
                Some((name, entry)) => {
                    if (now as u128) < entry.expires_at {
                        let at: usize = self.entries.len();
                        self.entries.push((name.clone(), entry));
                        self.index.insert(name, at);
                        proof {
                            assert(!held@.contains_key(last.0@));
                            assert forall|n: Seq<char>| #[trigger]
                                self.index@.contains_key(n) implies {
                                &&& self.index@[n] < self.entries@.len()
                                &&& self.entries@[self.index@[n] as int].0@ == n
                            } by {
                                if n != last.0@ {
                                    assert(held.index@.contains_key(n));
                                }
                            }
                            assert forall|i: int| 0 <= i < self.entries@.len() implies {
                                &&& self.index@.contains_key((#[trigger] self.entries@[i]).0@)
                                &&& self.index@[self.entries@[i].0@] == i
                                &&& self.entries@[i].1.addrs@.len() > 0
                            } by {
                                if i < held.entries@.len() {
                                    assert(held.index@.contains_key(held.entries@[i].0@));
                                }
                            }
                            assert(self@ == held@.insert(last.0@, entry_view(last.1)));
                        }
                    }
                },
                None => {},
            }
            proof {
                assert forall|name: Seq<char>| #[trigger] self@.contains_key(name) <==> {
                    &&& before@.contains_key(name)
                    &&& before.index@[name] >= left
                    &&& now < before@[name].expires_at
                } by {
                    if before@.contains_key(name) && before.index@[name] == left {
                        assert(all[left].0@ == name);
                    }
                    assert(held@.contains_key(name) <==> {
                        &&& before@.contains_key(name)
                        &&& before.index@[name] >= left + 1
                        &&& now < before@[name].expires_at
                    });
                }
                assert(entries@ == all.take(left as int));
            }
        }
        proof {
            let alive = Set::new(
                |name: Seq<char>| before@.contains_key(name) && now < before@[name].expires_at,
            );
            assert(self@ == before@.restrict(alive));
        }
    }

    /// What is known of a name: an address names itself, and no cache is asked for it.
    pub fn look_up(&self, hostname: &str, now: u64) -> (r: Lookup)
        requires
            self.wf(),
        ensures
            r == known(net::ip_of_text(hostname@), cached(self@, hostname@, now as int)),
    {
        choose_known(parse_ip(hostname), self.get_cached(hostname, now))
    }

    /// Takes what a resolver found for a name: it is put in order and kept, and its first
    /// address comes back. It is an error if there is none.
    pub fn resolved(&mut self, hostname: &str, addrs: &Vec<IpAddr>, now: u64) -> (r: Result<
        IpAddr,
        DnsError,
    >)
        requires
            old(self).wf(),
        ensures
            final(self).wf(),
            final(self).ttl() == old(self).ttl(),
            final(self).result_order() == old(self).result_order(),
            ({
                let list = kept(addrs@, old(self).result_order());
                match r {
                    Ok(ip) => {
                        &&& addrs@.len() > 0
                        &&& list.len() > 0
                        &&& ip == list[0]
                        &&& final(self)@ == old(self)@.insert(
                            hostname@,
                            EntryView { addrs: list, expires_at: now + old(self).ttl() },
                        )
                    },
                    Err(e) => {
                        &&& addrs@.len() == 0
                        &&& e matches DnsError::NoAddresses(name) && name@ == hostname@
                        &&& *final(self) == *old(self)
                    },
                }
            }),
    {
        if addrs.len() == 0 {
            return Err(DnsError::NoAddresses(hostname.to_owned()));
        }
        proof {
            lemma_deduped(addrs@);
            lemma_ordered_len(deduped(addrs@), self.order);
        }
        let list = order_addresses(addrs, self.order);
        Ok(self.insert_resolved(hostname, list, now))
    }
}

// ---------------------------------------------------------------------------------------
// Laws
// ---------------------------------------------------------------------------------------

/// A name that was just kept is found until its time is over, and not from then on.
pub proof fn kept_names_are_found(
    cache: Map<Seq<char>, EntryView>,
    name: Seq<char>,
    entry: EntryView,
    now: int,
)
    ensures
        cached(cache.insert(name, entry), name, now) == if now < entry.expires_at {
            Some(entry.addrs[0])
        } else {
            None
        },
{
}

/// Keeping one name changes nothing about another.
pub proof fn names_do_not_disturb_each_other(
    cache: Map<Seq<char>, EntryView>,
    name: Seq<char>,
    entry: EntryView,
    other: Seq<char>,
    now: int,
)
    requires
        other != name,
    ensures
        cached(cache.insert(name, entry), other, now) == cached(cache, other, now),
{
}

/// Dropping the names that no longer count changes no answer, now or later.
pub proof fn eviction_changes_no_answer(
    cache: Map<Seq<char>, EntryView>,
    now: int,
    name: Seq<char>,
    later: int,
)
    requires
        now <= later,
    ensures
        cached(
            cache.restrict(
                Set::new(|n: Seq<char>| cache.contains_key(n) && now < cache[n].expires_at),
            ),
            name,
            later,
        ) == cached(cache, name, later),
{
}

/// The preferred version comes first if there is any address of it.
pub proof fn preferred_version_comes_first(addrs: Seq<IpAddr>)
    requires
        addrs.len() > 0,
    ensures
        of_version(addrs, true).len() > 0 ==> ordered(addrs, ResultOrder::Ipv4First)[0] is V4,
        of_version(addrs, false).len() > 0 ==> ordered(addrs, ResultOrder::Ipv6First)[0] is V6,
{
    let has_version = |v4: bool| |a: IpAddr| (a is V4) == v4;
    if of_version(addrs, true).len() > 0 {
        assert(of_version(addrs, true) == addrs.filter(has_version(true)));
        addrs.lemma_filter_pred(has_version(true), 0);
    }
    if of_version(addrs, false).len() > 0 {
        assert(of_version(addrs, false) == addrs.filter(has_version(false)));
        addrs.lemma_filter_pred(has_version(false), 0);
    }
}

/// Whether addresses are of the same version as a preferred one, or no version is preferred.
pub open spec fn preferred(address: IpAddr, order: ResultOrder) -> bool {
    match order {
        ResultOrder::Ipv4First => address is V4,
        ResultOrder::Ipv6First => address is V6,
        ResultOrder::Verbatim => true,
    }
}

/// Dropping repetitions neither adds nor loses an address.
pub proof fn repetitions_alone_are_dropped(addrs: Seq<IpAddr>, address: IpAddr)
    ensures
        deduped(addrs).contains(address) <==> addrs.contains(address),
    decreases addrs.len(),
{
    if addrs.len() > 1 {
        let shorter = addrs.drop_last();
        repetitions_alone_are_dropped(shorter, address);
        let before = deduped(shorter);
        let after = deduped(addrs);
        if addrs.contains(address) {
            let i = choose|i: int| 0 <= i < addrs.len() && addrs[i] == address;
            if i < shorter.len() {
                assert(shorter[i] == address);
            } else if addrs.last() == addrs[addrs.len() - 2] {
                assert(shorter[shorter.len() - 1] == address);
            }
            if before.contains(address) {
                let k = choose|k: int| 0 <= k < before.len() && before[k] == address;
                assert(after[k] == address);
            } else {
                assert(after[before.len() as int] == address);
            }
        }
        if after.contains(address) {
            let k = choose|k: int| 0 <= k < after.len() && after[k] == address;
            if k < before.len() {
                assert(before[k] == address);
                let i = choose|i: int| 0 <= i < shorter.len() && shorter[i] == address;
                assert(addrs[i] == address);
            } else {
                assert(addrs[addrs.len() - 1] == address);
            }
        }
    }
}

/// An address that comes twice in a row is kept once, and addresses without such repetitions are
/// all kept, in order.
pub proof fn what_is_dropped(addrs: Seq<IpAddr>, address: IpAddr)
    ensures
        addrs.len() > 0 && addrs.last() == address ==> deduped(addrs.push(address)) == deduped(
            addrs,
        ),
        addrs.len() > 0 && addrs.last() != address ==> deduped(addrs.push(address)) == deduped(
            addrs,
        ).push(address),
        deduped(seq![address]) == seq![address],
        deduped(seq![]) == Seq::<IpAddr>::empty(),
{
    assert(addrs.push(address).drop_last() == addrs);
}

/// The address that a name leads to is the first of the preferred version that the resolver gave,
/// or its first of all if there is none of that version.
pub proof fn the_first_preferred_address_is_taken(addrs: Seq<IpAddr>, order: ResultOrder, i: int)
    requires
        0 <= i < addrs.len(),
        ({
            ||| preferred(addrs[i], order) && forall|j: int|
                0 <= j < i ==> !preferred(#[trigger] addrs[j], order)
            ||| i == 0 && forall|j: int|
                0 <= j < addrs.len() ==> !preferred(#[trigger] addrs[j], order)
        }),
    ensures
        kept(addrs, order).len() > 0,
        kept(addrs, order)[0] == addrs[i],
{
    lemma_deduped(addrs);
    let once = deduped(addrs);
    lemma_ordered_len(once, order);
    match order {
        ResultOrder::Verbatim => {
            if i > 0 {
                assert(!preferred(addrs[0], order));
            }
        },
        ResultOrder::Ipv4First => lemma_first_of_version(addrs, true, i),
        ResultOrder::Ipv6First => lemma_first_of_version(addrs, false, i),
    }
}

/// The first address of a version stays the first of it without repetitions; and if there is none
/// of it, the first of all is the first of the other.
proof fn lemma_first_of_version(addrs: Seq<IpAddr>, v4: bool, i: int)
    requires
        0 <= i < addrs.len(),
        ({
            ||| (addrs[i] is V4) == v4 && forall|j: int|
                0 <= j < i ==> ((#[trigger] addrs[j]) is V4) != v4
            ||| i == 0 && forall|j: int|
                0 <= j < addrs.len() ==> ((#[trigger] addrs[j]) is V4) != v4
        }),
    ensures
        ({
            let once = deduped(addrs);
            (of_version(once, v4) + of_version(once, !v4))[0] == addrs[i]
        }),
        (addrs[i] is V4) == v4 ==> of_version(deduped(addrs), v4).len() > 0,
        (addrs[i] is V4) != v4 ==> of_version(deduped(addrs), v4).len() == 0 && of_version(
            deduped(addrs),
            !v4,
        ).len() > 0,
    decreases addrs.len(),
{
    reveal(Seq::filter);
    let once = deduped(addrs);
    if addrs.len() == 1 {
        assert(once == addrs);
        assert(addrs.drop_last() == Seq::<IpAddr>::empty());
        assert(of_version(addrs.drop_last(), v4) == Seq::<IpAddr>::empty());
        assert(of_version(addrs.drop_last(), !v4) == Seq::<IpAddr>::empty());
    } else {
        let shorter = addrs.drop_last();
        let before = deduped(shorter);
        assert(forall|j: int| 0 <= j < shorter.len() ==> #[trigger] shorter[j] == addrs[j]);
        lemma_deduped(shorter);
        if i < shorter.len() {
            if !((addrs[i] is V4) == v4) {
                assert forall|j: int| 0 <= j < shorter.len() implies ((#[trigger] shorter[j]) is V4)
                    != v4 by {
                    assert(shorter[j] == addrs[j]);
                }
            }
            lemma_first_of_version(shorter, v4, i);
            if once != before {
                assert(once == before.push(addrs.last()));
                assert(once.drop_last() == before);
                assert(once.last() == addrs.last());
                if (addrs[i] is V4) != v4 {
                    assert((addrs[addrs.len() - 1] is V4) != v4);
                }
            }
        } else {
            assert(forall|j: int| 0 <= j < shorter.len() ==> ((#[trigger] shorter[j]) is V4) != v4);
            lemma_first_of_version(shorter, v4, 0);
            assert((shorter[0] is V4) != v4);
            assert(addrs[addrs.len() - 2] == shorter[shorter.len() - 1]);
            assert(once == before.push(addrs.last()));
            assert(once.drop_last() == before);
            assert(of_version(before, v4).len() == 0);
            assert(of_version(once, v4) == of_version(before, v4).push(addrs.last()));
        }
    }
}

/// Ordering neither adds nor loses an address.
pub proof fn ordering_keeps_all(addrs: Seq<IpAddr>, order: ResultOrder, address: IpAddr)
    ensures
        ordered(addrs, order).contains(address) <==> addrs.contains(address),
        order == ResultOrder::Verbatim ==> ordered(addrs, order) == addrs,
{
    let v4 = |a: IpAddr| (a is V4) == true;
    let v6 = |a: IpAddr| (a is V4) == false;
    let some4 = of_version(addrs, true);
    let some6 = of_version(addrs, false);
    assert(some4 == addrs.filter(v4));
    assert(some6 == addrs.filter(v6));
    if addrs.contains(address) {
        let i = choose|i: int| 0 <= i < addrs.len() && addrs[i] == address;
        if address is V4 {
            addrs.lemma_filter_contains(v4, i);
            let k = choose|k: int| 0 <= k < some4.len() && some4[k] == address;
            assert((some4 + some6)[k] == address);
            assert((some6 + some4)[some6.len() + k] == address);
        } else {
            addrs.lemma_filter_contains(v6, i);
            let k = choose|k: int| 0 <= k < some6.len() && some6[k] == address;
            assert((some4 + some6)[some4.len() + k] == address);
            assert((some6 + some4)[k] == address);
        }
    }
    if some4.contains(address) {
        addrs.lemma_filter_contains_rev(v4, address);
    }
    if some6.contains(address) {
        addrs.lemma_filter_contains_rev(v6, address);
    }
    if (some4 + some6).contains(address) || (some6 + some4).contains(address) {
        assert(some4.contains(address) || some6.contains(address)) by {
            if (some4 + some6).contains(address) {
                let k = choose|k: int|
                    0 <= k < (some4 + some6).len() && (some4 + some6)[k] == address;
                if k < some4.len() {
                    assert(some4[k] == address);
                } else {
                    assert(some6[k - some4.len()] == address);
                }
            } else {
                let k = choose|k: int|
                    0 <= k < (some6 + some4).len() && (some6 + some4)[k] == address;
                if k < some6.len() {
                    assert(some6[k] == address);
                } else {
                    assert(some4[k - some6.len()] == address);
                }
            }
        }
    }
}

/// An address names itself, whatever is cached; a name leads where the cache says; and what is in
/// neither is resolved.
pub proof fn what_is_known_of_a_name(ip: IpAddr, cached: Option<IpAddr>)
    ensures
        known(Some(ip), cached) == Lookup::Known(ip),
        known(None, Some(ip)) == Lookup::Known(ip),
        known(None, None) == Lookup::Resolve,
{
}

/// A name that was resolved leads to its first address until the time to live is over, and has to
/// be resolved again from then on.
pub proof fn names_are_resolved_again(
    cache: Map<Seq<char>, EntryView>,
    name: Seq<char>,
    addrs: Seq<IpAddr>,
    resolved: u64,
    ttl_secs: u64,
    now: u64,
)
    requires
        addrs.len() > 0,
    ensures
        ({
            let entry = EntryView { addrs, expires_at: resolved + clock::nanos_of(ttl_secs) };
            let found = cached(cache.insert(name, entry), name, now as int);
            &&& now < resolved + ttl_secs * 1_000_000_000 ==> known(None, found) == Lookup::Known(
                addrs[0],
            )
            &&& now >= resolved + ttl_secs * 1_000_000_000 ==> known(None, found)
                == Lookup::Resolve
        }),
{
}

/// A name that was never resolved is not in the cache.
pub proof fn unknown_names_are_not_cached(
    cache: Map<Seq<char>, EntryView>,
    name: Seq<char>,
    now: int,
)
    requires
        !cache.contains_key(name),
    ensures
        cached(cache, name, now) is None,
{
}

/// The two words for an order mean what they say, and any other leaves the order as it is.
pub proof fn words_for_orders(word: Seq<char>)
    ensures
        order_named(word) == ResultOrder::Ipv4First <==> word == "ipv4first"@,
        order_named(word) == ResultOrder::Ipv6First <==> word == "ipv6first"@,
{
    reveal_strlit("ipv4first");
    reveal_strlit("ipv6first");
    assert("ipv4first"@[3] != "ipv6first"@[3]);
}

/// A name that was kept is found under that name until its time is over, and not under any other
/// name that was not there before.
pub proof fn what_is_kept_is_found(
    cache: &mut DnsCache,
    name: &str,
    addrs: Vec<IpAddr>,
    now: u64,
    first: IpAddr,
    after: DnsCache,
    other: &str,
    later: u64,
    r: Option<IpAddr>,
)
    requires
        call_ensures(DnsCache::insert_resolved, (cache, name, addrs, now), first),
        after == *final(cache),
        call_ensures(DnsCache::get_cached, (&after, other, later), r),
        addrs@.len() > 0,
    ensures
        first == addrs@[0],
        other@ == name@ && later < now + old(cache).ttl() ==> r == Some(first),
        other@ == name@ && later >= now + old(cache).ttl() ==> r is None,
        other@ != name@ && !old(cache)@.contains_key(other@) ==> r is None,
{
}

/// What a resolver finds is kept, and its first preferred address comes back; finding nothing is an
/// error that names the name, and keeps nothing.
pub proof fn what_is_resolved_is_kept(
    cache: &mut DnsCache,
    name: &str,
    addrs: Vec<IpAddr>,
    now: u64,
    i: int,
    r: Result<IpAddr, DnsError>,
)
    requires
        call_ensures(DnsCache::resolved, (cache, name, &addrs, now), r),
        addrs@.len() > 0 ==> {
            let order = old(cache).result_order();
            &&& 0 <= i < addrs@.len()
            &&& {
                ||| preferred(addrs@[i], order) && forall|j: int|
                    0 <= j < i ==> !preferred(#[trigger] addrs@[j], order)
                ||| i == 0 && forall|j: int|
                    0 <= j < addrs@.len() ==> !preferred(#[trigger] addrs@[j], order)
            }
        },
    ensures
        addrs@.len() > 0 ==> (r matches Ok(ip) && ip == addrs@[i]),
        addrs@.len() > 0 ==> final(cache)@.contains_key(name@) && final(cache)@[name@].expires_at
            == now + old(cache).ttl() && final(cache)@[name@].addrs[0] == addrs@[i],
        addrs@.len() == 0 ==> (r matches Err(DnsError::NoAddresses(what)) && what@ == name@)
            && final(cache)@ == old(cache)@,
{
    if addrs@.len() > 0 {
        the_first_preferred_address_is_taken(addrs@, old(cache).result_order(), i);
    }
}

/// A cache starts empty, with the order and the time to live of its configuration.
pub proof fn caches_start_empty(config: ServerConfig, r: DnsCache)
    requires
        call_ensures(DnsCache::new, (&config,), r),
    ensures
        r@ == Map::<Seq<char>, EntryView>::empty(),
        r.ttl() == config.dns_ttl * 1_000_000_000,
        config.dns_result_order@ == "ipv4first"@ ==> r.result_order() == ResultOrder::Ipv4First,
        config.dns_result_order@ == "ipv6first"@ ==> r.result_order() == ResultOrder::Ipv6First,
        config.dns_result_order@ != "ipv4first"@ && config.dns_result_order@ != "ipv6first"@
            ==> r.result_order() == ResultOrder::Verbatim,
{
    words_for_orders(config.dns_result_order@);
}

/// Dropping the names that no longer count drops exactly those, and no lookup notices.
pub proof fn only_expired_names_are_dropped(
    cache: &mut DnsCache,
    now: u64,
    before: DnsCache,
    after: DnsCache,
    name: &str,
    later: u64,
    found: Lookup,
    found_after: Lookup,
)
    requires
        call_ensures(DnsCache::evict_expired, (cache, now), ()),
        before == *old(cache),
        after == *final(cache),
        call_ensures(DnsCache::look_up, (&before, name, later), found),
        call_ensures(DnsCache::look_up, (&after, name, later), found_after),
        now <= later,
    ensures
        found_after == found,
        after@.contains_key(name@) <==> before@.contains_key(name@) && now
            < before@[name@].expires_at,
        after.ttl() == before.ttl(),
        after.result_order() == before.result_order(),
{
    eviction_changes_no_answer(before@, now as int, name@, later as int);
}

/// Looking a name up gives the address that it is, if it is one; else the first address that is
/// cached and still counts; and asks for it to be resolved if there is none.
pub proof fn names_are_looked_up(cache: DnsCache, name: &str, now: u64, r: Lookup)
    requires
        call_ensures(DnsCache::look_up, (&cache, name, now), r),
    ensures
        net::ip_of_text(name@) matches Some(ip) ==> r == Lookup::Known(ip),
        net::ip_of_text(name@) is None ==> r == if cache@.contains_key(name@) && now
            < cache@[name@].expires_at {
            Lookup::Known(cache@[name@].addrs[0])
        } else {
            Lookup::Resolve
        },
{
}

/// The errors in words, with what failed.
pub proof fn errors_have_their_words(what: String, failed: String, none: String)
    requires
        call_ensures(DnsError::message, (&DnsError::ResolveFailed(what),), failed),
        call_ensures(DnsError::message, (&DnsError::NoAddresses(what),), none),
    ensures
        failed@ == "DNS resolution failed: "@ + what@,
        none@ == "No addresses returned for "@ + what@,
{
}

} // verus!
