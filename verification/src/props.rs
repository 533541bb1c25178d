//! The laws the lifecycle manager obeys, stated and proved over the
//! spec-level model that the operations' contracts use.

use crate::kernel_manager::lemma_find_record_witness;
use crate::kernel_manager::{
    is_segment, kill_error, launched, ports_of, Config, Kernel, KernelError, KernelManager,
    KernelStatus,
};
use vstd::prelude::*;

verus! {

/// After a successful launch of a report id, looking that id up returns the
/// new record: running, with a process id, and a port configuration whose
/// five ports are pairwise distinct and lie inside the configured range.
pub proof fn lemma_launch_then_get(
    pre: KernelManager,
    post: KernelManager,
    rid: Seq<char>,
    c: Config,
    pid: u32,
    k: Kernel,
)
    requires
        pre.segment_ready(c),
        launched(pre, post, rid, c, pid, k),
    ensures
        post.spec_get(rid) == Some(k),
        k.status == KernelStatus::Running,
        k.process_id == Some(pid),
        k.config == Some(c),
        forall|a: int, b: int| 0 <= a < b < 5 ==> ports_of(c)[a] != ports_of(c)[b],
        forall|a: int|
            0 <= a < 5
                ==> pre.spec_lo() <= #[trigger] ports_of(c)[a] && ports_of(c)[a] < pre.spec_hi(),
{
    assert(is_segment(c));
    assert(ports_of(c)[0] == c.hb_port);
    assert(ports_of(c)[1] == c.control_port);
    assert(ports_of(c)[2] == c.shell_port);
    assert(ports_of(c)[3] == c.iopub_port);
    assert(ports_of(c)[4] == c.stdin_port);
}

/// Two records registered at the same time never share a port: live port
/// segments are pairwise disjoint.
pub proof fn lemma_live_segments_disjoint(m: KernelManager, i: int, j: int)
    requires
        m.well_formed(),
        0 <= i < m.records().len(),
        0 <= j < m.records().len(),
        i != j,
    ensures
        forall|a: int, b: int|
            0 <= a < 5 && 0 <= b < 5
                ==> #[trigger] ports_of(m.records()[i].config->0)[a] != #[trigger] ports_of(
                m.records()[j].config->0,
            )[b],
{
    let ci = m.records()[i].config->0;
    let cj = m.records()[j].config->0;
    assert(m.record_live(m.records()[i]));
    assert(m.record_live(m.records()[j]));
    let si = ci.hb_port;
    let sj = cj.hb_port;
    assert(si != sj);
    let ki = choose|k: int| 0 <= k && si == m.spec_lo() + #[trigger] (5 * k);
    let kj = choose|k: int| 0 <= k && sj == m.spec_lo() + #[trigger] (5 * k);
    assert(si - sj == 5 * (ki - kj));
    assert(si - sj >= 5 || sj - si >= 5);
    assert forall|a: int| 0 <= a < 5 implies #[trigger] ports_of(ci)[a] == si + a by {}
    assert forall|a: int| 0 <= a < 5 implies #[trigger] ports_of(cj)[a] == sj + a by {}
}

/// A kill of an unknown report id fails with `NotFoundError`; by kill's
/// contract such a failure leaves the registry and the pool untouched.
pub proof fn lemma_kill_unknown(m: KernelManager, rid: Seq<char>, delivered: bool)
    requires
        m.spec_get(rid) is None,
    ensures
        kill_error(m, rid, delivered) == Some(KernelError::NotFoundError),
{
}

/// A segment a launch took from the pool is reusable once its kernel is
/// killed: the pool regains its pre-launch size and holds that segment
/// again, so a later launch can pick it.
pub proof fn lemma_segment_reusable(
    m0: KernelManager,
    m1: KernelManager,
    m2: KernelManager,
    m3: KernelManager,
    rid: Seq<char>,
    c: Config,
    pid: u32,
    k: Kernel,
    i: int,
)
    requires
        0 <= i < m0.pool().len(),
        c.hb_port == m0.pool()[i],
        m1.pool() == m0.pool().remove(i),
        launched(m1, m2, rid, c, pid, k),
        m3.pool() == m2.pool().push(m2.spec_get(rid)->0.config->0.hb_port),
    ensures
        m3.pool().len() == m0.pool().len(),
        m3.pool()[m3.pool().len() - 1] == c.hb_port,
        exists|j: int| 0 <= j < m3.pool().len() && m3.pool()[j] == c.hb_port,
{
    assert(m2.spec_get(rid) == Some(k));
    assert(k.config == Some(c));
    assert(m3.pool()[m3.pool().len() - 1] == c.hb_port);
}

/// A restart — a kill strictly followed by a launch under the same report id
/// — yields a record with the same report id as before, and, whenever the
/// relaunch allocated a different segment start, a different port
/// configuration. (When the released segment is the only free one, the pool
/// can hand the same start straight back; and the fresh internal id is drawn
/// at random, so its difference is a matter of probability, not contract.)
pub proof fn lemma_restart_same_id_new_ports(
    pre: KernelManager,
    mid: KernelManager,
    post: KernelManager,
    rid: Seq<char>,
    k0: Kernel,
    c1: Config,
    pid: u32,
    k1: Kernel,
)
    requires
        pre.spec_get(rid) == Some(k0),
        launched(mid, post, rid, c1, pid, k1),
        k0.config is Some,
        c1.hb_port != k0.config->0.hb_port,
    ensures
        k0.report_id@ == rid,
        k1.report_id@ == rid,
        k1.config != k0.config,
        post.spec_get(rid) == Some(k1),
{
    lemma_find_record_witness(pre.records(), rid);
}

/// A restart of an unknown report id fails exactly as a kill does: the kill
/// step reports `NotFoundError` and changes nothing, and the launch step —
/// which restart takes only after a successful kill — never runs.
pub proof fn lemma_restart_unknown(m: KernelManager, rid: Seq<char>, delivered: bool)
    requires
        m.spec_get(rid) is None,
    ensures
        kill_error(m, rid, delivered) == Some(KernelError::NotFoundError),
{
}

} // verus!
