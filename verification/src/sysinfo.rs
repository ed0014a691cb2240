//! The status topics of the broker, and the announcements to Home Assistant.
use vstd::prelude::*;
use crate::broker::{Broker, BrokerView};
use crate::metrics::Snapshot;
use crate::text;

verus! {

/// What is published of a snapshot: the status topics, and the states for Home
/// Assistant where they are wanted.
pub open spec fn status_pairs(s: Snapshot, ha_discovery: bool, node: Seq<char>) -> Seq<
    (Seq<char>, Seq<char>),
> {
    let own = s.sys_pairs() + s.packet_pairs();
    if ha_discovery {
        own + s.ha_values(node)
    } else {
        own
    }
}

impl BrokerView {
    /// The broker after it published its status.
    pub open spec fn with_status(self, now: u64, uptime: u64) -> BrokerView {
        let b = self.purged(now);
        b.reporting_all(
            status_pairs(b.statistics(uptime), b.config.ha_discovery, b.config.service_name),
            now,
        )
    }

    /// What announces the status topics to Home Assistant.
    pub open spec fn announcements(self, now: u64, uptime: u64) -> Seq<(Seq<char>, Seq<char>)> {
        self.purged(now).statistics(uptime).ha_configs(
            self.config.ha_discovery_prefix,
            self.config.service_name,
        )
    }

    /// The broker after it announced its status topics.
    pub open spec fn announcing(self, now: u64, uptime: u64) -> BrokerView {
        self.purged(now).reporting_all(self.announcements(now, uptime), now)
    }
}

fn join(mut a: Vec<(String, String)>, b: Vec<(String, String)>) -> (r: Vec<(String, String)>)
    ensures
        text::pair_views(r@) == text::pair_views(a@) + text::pair_views(b@),
{
    let ghost first = a@;
    let ghost second = b@;
    let mut b: Vec<(String, String)> = b;
    a.append(&mut b);
    assert(a@ =~= first + second);
    assert(text::pair_views(a@) =~= text::pair_views(first) + text::pair_views(second));
    a
}

/// Publishes the status of the broker.
pub fn publish_once(broker: &mut Broker, now: u64, uptime: u64)
    requires
        old(broker).wf(),
    ensures
        final(broker).wf(),
        final(broker)@ == old(broker)@.with_status(now, uptime),
{
    let snapshot: Snapshot = broker.snapshot(now, uptime);
    let entries: Vec<(String, String)> = snapshot.to_sys_topics();
    let all: Vec<(String, String)> = if broker.config().ha_discovery {
        let states: Vec<(String, String)> = snapshot.to_ha_states(
            broker.config().service_name.as_str(),
        );
        join(entries, states)
    } else {
        entries
    };
    broker.publish_sys(&all, now);
}

/// Announces the status topics to Home Assistant. Returns how many there are.
pub fn publish_ha_discovery(broker: &mut Broker, now: u64, uptime: u64) -> (n: usize)
    requires
        old(broker).wf(),
    ensures
        final(broker).wf(),
        final(broker)@ == old(broker)@.announcing(now, uptime),
        n == old(broker)@.announcements(now, uptime).len(),
{
    let snapshot: Snapshot = broker.snapshot(now, uptime);
    let entries: Vec<(String, String)> = snapshot.to_ha_discovery(
        broker.config().ha_discovery_prefix.as_str(),
        broker.config().service_name.as_str(),
    );
    assert(text::pair_views(entries@).len() == entries@.len());
    broker.publish_sys(&entries, now);
    entries.len()
}

/// Publishes what there is at the start: the announcements where they are
/// wanted, then the status. Without an interval nothing is ever published.
/// Returns the seconds between two publications.
pub fn publish_first(broker: &mut Broker, now: u64, uptime: u64) -> (period: Option<u32>)
    requires
        old(broker).wf(),
    ensures
        final(broker).wf(),
        period == (if old(broker)@.config.sys_interval == 0 {
            None
        } else {
            Some(old(broker)@.config.sys_interval)
        }),
        final(broker)@ == (if old(broker)@.config.sys_interval == 0 {
            old(broker)@
        } else if old(broker)@.config.ha_discovery {
            old(broker)@.announcing(now, uptime).with_status(now, uptime)
        } else {
            old(broker)@.with_status(now, uptime)
        }),
{
    let interval: u32 = broker.config().sys_interval;
    if interval == 0 {
        return None;
    }
    if broker.config().ha_discovery {
        let announced: usize = publish_ha_discovery(broker, now, uptime);
    }
    publish_once(broker, now, uptime);
    Some(interval)
}

} // verus!
