//! Kernel records, the port-segment pool, and the registry that tracks one
//! live kernel per report id, together with the lifecycle transitions.

use rand::Rng;
use vstd::prelude::*;

verus! {

/// Status of a kernel record over its lifetime.
#[derive(Debug, Clone, Copy, PartialEq, Eq, Structural)]
pub enum KernelStatus {
    Running,
    Stopped,
    Error,
    Created,
}

/// Connection settings handed to a worker: the bind address and the five
/// channel ports of one contiguous segment.
#[derive(Debug, Clone)]
pub struct Config {
    pub ip: String,
    pub hb_port: u32,
    pub control_port: u32,
    pub shell_port: u32,
    pub iopub_port: u32,
    pub stdin_port: u32,
}

/// One kernel: its generated identity, the owning report id, the process and
/// port resources once they exist, and its status.
#[derive(Debug, Clone)]
pub struct Kernel {
    pub id: String,
    pub process_id: Option<u32>,
    pub config: Option<Config>,
    pub status: KernelStatus,
    pub report_id: String,
}

/// The failures a lifecycle operation can report.
#[derive(Debug, Clone, Copy, PartialEq, Eq, Structural)]
pub enum KernelError {
    PortAllocationError,
    SpawnError,
    KernelNotRunningError,
    NotFoundError,
    TerminateError,
}

/// The five ports of a configuration, in channel order.
pub open spec fn ports_of(c: Config) -> Seq<u32> {
    seq![c.hb_port, c.control_port, c.shell_port, c.iopub_port, c.stdin_port]
}

/// The configuration covers one contiguous five-port segment starting at its
/// heartbeat port.
pub open spec fn is_segment(c: Config) -> bool {
    &&& c.control_port == c.hb_port + 1
    &&& c.shell_port == c.hb_port + 2
    &&& c.iopub_port == c.hb_port + 3
    &&& c.stdin_port == c.hb_port + 4
}

/// Relies on uuid::Uuid::new_v4 and its hyphenated display form: a fresh
/// random identifier rendered as a 36-character string. Nothing is promised
/// about the value itself, which is drawn from the process's random source.
#[verifier::external_body]
fn fresh_kernel_id() -> (r: String)
    ensures
        r@.len() == 36,
{
    uuid::Uuid::new_v4().to_string()
}

/// Relies on rand::Rng::gen_range over the thread-local generator: a value
/// drawn uniformly from the half-open range below `bound`.
#[verifier::external_body]
fn random_index(bound: usize) -> (r: usize)
    requires
        1 <= bound,
    ensures
        r < bound,
{
    rand::thread_rng().gen_range(0..bound)
}

impl KernelError {
    /// The human-readable text of each failure.
    pub open spec fn spec_message(self) -> Seq<char> {
        match self {
            KernelError::PortAllocationError => "no free port segment could be allocated"@,
            KernelError::SpawnError => "failed to start the kernel process"@,
            KernelError::KernelNotRunningError => "kernel process is not running"@,
            KernelError::NotFoundError => "kernel for this report id was not found"@,
            KernelError::TerminateError => "failed to kill the kernel process"@,
        }
    }

    pub fn message(&self) -> (m: &'static str)
        ensures
            m@ == self.spec_message(),
    {
        match self {
            KernelError::PortAllocationError => "no free port segment could be allocated",
            KernelError::SpawnError => "failed to start the kernel process",
            KernelError::KernelNotRunningError => "kernel process is not running",
            KernelError::NotFoundError => "kernel for this report id was not found",
            KernelError::TerminateError => "failed to kill the kernel process",
        }
    }
}

impl Kernel {
    /// Creates a record for a report id: freshly identified, not yet backed by
    /// a process or ports.
    pub fn new(report_id: String) -> (k: Kernel)
        ensures
            k.status == KernelStatus::Created,
            k.process_id is None,
            k.config is None,
            k.report_id == report_id,
            k.id@.len() == 36,
    {
        Kernel {
            id: fresh_kernel_id(),
            process_id: None,
            config: None,
            status: KernelStatus::Created,
            report_id,
        }
    }
}

/// First record whose report id matches, scanning from the front.
pub open spec fn find_record(s: Seq<Kernel>, r: Seq<char>) -> Option<Kernel>
    decreases s.len(),
{
    if s.len() == 0 {
        None
    } else if s[0].report_id@ == r {
        Some(s[0])
    } else {
        find_record(s.drop_first(), r)
    }
}

/// Owns the pool of free port segments and the registry of live kernels.
pub struct KernelManager {
    kernels: Vec<Kernel>,
    available_ports: Vec<u32>,
    range_lo: u32,
    range_hi: u32,
}

impl KernelManager {
    /// The starts of the free port segments, in pool order.
    pub closed spec fn pool(self) -> Seq<u32> {
        self.available_ports@
    }

    /// The live kernel records, in registry order.
    pub closed spec fn records(self) -> Seq<Kernel> {
        self.kernels@
    }

    /// Lower bound of the configured port range.
    pub closed spec fn spec_lo(self) -> u32 {
        self.range_lo
    }

    /// Upper bound (exclusive) of the configured port range.
    pub closed spec fn spec_hi(self) -> u32 {
        self.range_hi
    }

    /// The record registered under a report id, if any.
    pub open spec fn spec_get(self, r: Seq<char>) -> Option<Kernel> {
        find_record(self.records(), r)
    }

    /// A segment start that lies on the configured five-port grid and whose
    /// whole segment fits inside the configured range.
    pub open spec fn seg_in_range(self, s: u32) -> bool {
        &&& self.spec_lo() <= s
        &&& s + 5 <= self.spec_hi()
        &&& exists|k: int| 0 <= k && s == self.spec_lo() + #[trigger] (5 * k)
    }

    /// A registered record is fully resourced: running, with a process id and
    /// a proper in-range port segment.
    pub open spec fn record_live(self, k: Kernel) -> bool {
        &&& k.status == KernelStatus::Running
        &&& k.process_id is Some
        &&& k.config is Some
        &&& is_segment(k.config->0)
        &&& self.seg_in_range(k.config->0.hb_port)
    }

    /// The manager's invariant: pool segments are distinct and in range,
    /// report ids are unique, every record is live, and no segment is held
    /// twice — neither by two records nor by a record and the pool.
    pub open spec fn well_formed(self) -> bool {
        &&& forall|i: int, j: int|
            0 <= i < j < self.pool().len() ==> self.pool()[i] != self.pool()[j]
        &&& forall|i: int|
            0 <= i < self.pool().len() ==> self.seg_in_range(#[trigger] self.pool()[i])
        &&& forall|i: int, j: int|
            0 <= i < j < self.records().len()
                ==> self.records()[i].report_id@ != self.records()[j].report_id@
        &&& forall|i: int|
            0 <= i < self.records().len() ==> self.record_live(#[trigger] self.records()[i])
        &&& forall|i: int, j: int|
            0 <= i < j < self.records().len()
                ==> self.records()[i].config->0.hb_port != self.records()[j].config->0.hb_port
        &&& forall|i: int, j: int|
            0 <= i < self.records().len() && 0 <= j < self.pool().len()
                ==> self.records()[i].config->0.hb_port != self.pool()[j]
    }

    /// A manager over an explicit port range: the pool is built once by
    /// striding the range in steps of five; the registry starts empty.
    pub fn with_range(range_lo: u32, range_hi: u32) -> (m: KernelManager)
        ensures
            m.well_formed(),
            m.records() == Seq::<Kernel>::empty(),
            forall|r: Seq<char>| m.spec_get(r) is None,
            m.spec_lo() == range_lo,
            m.spec_hi() == range_hi,
            forall|i: int|
                0 <= i < m.pool().len() ==> m.pool()[i] == range_lo + 5 * i,
            range_lo + 5 <= range_hi
                ==> range_lo + 5 * m.pool().len() <= range_hi
                    && range_hi < range_lo + 5 * m.pool().len() + 5,
            range_lo + 5 > range_hi ==> m.pool().len() == 0,
    {
        let mut pool: Vec<u32> = Vec::new();
        if range_hi >= 5 && range_lo <= range_hi - 5 {
            let mut start: u32 = range_lo;
            while start <= range_hi - 5
                invariant
                    5 <= range_hi,
                    range_lo <= start,
                    start <= range_hi,
                    start == range_lo + 5 * pool@.len(),
                    forall|i: int| 0 <= i < pool@.len() ==> pool@[i] == range_lo + 5 * i,
                decreases range_hi - start,
            {
                pool.push(start);
                start = start + 5;
            }
        }
        KernelManager {
            kernels: Vec::new(),
            available_ports: pool,
            range_lo,
            range_hi,
        }
    }

    /// A manager over the default port range.
    pub fn new() -> (m: KernelManager)
        ensures
            m.well_formed(),
            m.records() == Seq::<Kernel>::empty(),
            forall|r: Seq<char>| m.spec_get(r) is None,
            m.spec_lo() == 2000,
            m.spec_hi() == 65000,
            m.pool().len() == 12600,
            forall|i: int|
                0 <= i < m.pool().len() ==> m.pool()[i] == 2000 + 5 * i,
    {
        let m = Self::with_range(2000, 65000);
        assert(m.pool().len() == 12600);
        m
    }

    /// How many free segments remain.
    pub fn pool_len(&self) -> (n: usize)
        ensures
            n == self.pool().len(),
    {
        self.available_ports.len()
    }

    /// All live records, in registry order.
    pub fn get_kernels(&self) -> (ks: &Vec<Kernel>)
        ensures
            ks@ == self.records(),
    {
        &self.kernels
    }

    /// Index of the record registered under a report id, tied to the
    /// spec-level lookup.
    fn find_index(&self, report_id: &String) -> (r: Option<usize>)
        ensures
            match r {
                Some(i) => i < self.records().len()
                    && self.records()[i as int].report_id@ == report_id@
                    && self.spec_get(report_id@) == Some(self.records()[i as int]),
                None => self.spec_get(report_id@) is None,
            },
    {
        let n = self.kernels.len();
        let mut idx: usize = 0;
        while idx < n
            invariant
                n == self.records().len(),
                idx <= n,
                forall|j: int| 0 <= j < idx ==> self.records()[j].report_id@ != report_id@,
            decreases n - idx,
        {
            if self.kernels[idx].report_id == *report_id {
                proof {
                    lemma_find_record_at(self.records(), report_id@, idx as int);
                }
                return Some(idx);
            }
            idx += 1;
        }
        proof {
            lemma_find_record_absent(self.records(), report_id@);
        }
        None
    }

    /// The record registered under a report id, if any; a pure read.
    pub fn get_kernel(&self, report_id: &String) -> (r: Option<&Kernel>)
        ensures
            match r {
                Some(k) => self.spec_get(report_id@) == Some(*k),
                None => self.spec_get(report_id@) is None,
            },
    {
        match self.find_index(report_id) {
            Some(i) => Some(&self.kernels[i]),
            None => None,
        }
    }
}

/// If the record at index `i` matches and none before it does, the lookup
/// returns exactly that record.
proof fn lemma_find_record_at(s: Seq<Kernel>, r: Seq<char>, i: int)
    requires
        0 <= i < s.len(),
        s[i].report_id@ == r,
        forall|j: int| 0 <= j < i ==> s[j].report_id@ != r,
    ensures
        find_record(s, r) == Some(s[i]),
    decreases i,
{
    if i == 0 {
    } else {
        assert(s.drop_first()[i - 1] == s[i]);
        assert(forall|j: int| 0 <= j < i - 1 ==> s.drop_first()[j] == s[j + 1]);
        lemma_find_record_at(s.drop_first(), r, i - 1);
    }
}

/// If no record matches, the lookup comes back empty.
proof fn lemma_find_record_absent(s: Seq<Kernel>, r: Seq<char>)
    requires
        forall|j: int| 0 <= j < s.len() ==> s[j].report_id@ != r,
    ensures
        find_record(s, r) is None,
    decreases s.len(),
{
    if s.len() > 0 {
        assert(forall|j: int| 0 <= j < s.len() - 1 ==> s.drop_first()[j] == s[j + 1]);
        lemma_find_record_absent(s.drop_first(), r);
    }
}

/// Appending a record does not disturb the lookup of ids already present,
/// and resolves an absent id exactly when the new record carries it.
proof fn lemma_find_record_push(s: Seq<Kernel>, k: Kernel, r: Seq<char>)
    ensures
        find_record(s, r) is Some ==> find_record(s.push(k), r) == find_record(s, r),
        find_record(s, r) is None && k.report_id@ == r ==> find_record(s.push(k), r) == Some(k),
        find_record(s, r) is None && k.report_id@ != r ==> find_record(s.push(k), r) is None,
    decreases s.len(),
{
    if s.len() == 0 {
        assert(s.push(k)[0] == k);
        assert(s.push(k).drop_first() =~= Seq::<Kernel>::empty());
        assert(find_record(Seq::<Kernel>::empty(), r) is None);
    } else {
        assert(s.push(k)[0] == s[0]);
        if s[0].report_id@ == r {
        } else {
            assert(s.push(k).drop_first() =~= s.drop_first().push(k));
            lemma_find_record_push(s.drop_first(), k, r);
        }
    }
}

/// Removing a record whose id is different leaves the lookup unchanged.
proof fn lemma_find_record_remove(s: Seq<Kernel>, i: int, r: Seq<char>)
    requires
        0 <= i < s.len(),
        s[i].report_id@ != r,
    ensures
        find_record(s.remove(i), r) == find_record(s, r),
    decreases s.len(),
{
    if i == 0 {
        assert(s.remove(0) =~= s.drop_first());
    } else {
        assert(s.remove(i)[0] == s[0]);
        if s[0].report_id@ == r {
            assert(s.remove(i).len() > 0);
        } else {
            assert(s.remove(i).drop_first() =~= s.drop_first().remove(i - 1));
            lemma_find_record_remove(s.drop_first(), i - 1, r);
        }
    }
}

/// An empty lookup means no record at all carries the id.
proof fn lemma_find_record_none_absent(s: Seq<Kernel>, r: Seq<char>)
    requires
        find_record(s, r) is None,
    ensures
        forall|j: int| 0 <= j < s.len() ==> s[j].report_id@ != r,
    decreases s.len(),
{
    if s.len() > 0 {
        lemma_find_record_none_absent(s.drop_first(), r);
        assert forall|j: int| 0 <= j < s.len() implies s[j].report_id@ != r by {
            if j > 0 {
                assert(s.drop_first()[j - 1] == s[j]);
            }
        }
    }
}

/// A successful lookup names a matching record that sits in the sequence.
pub(crate) proof fn lemma_find_record_witness(s: Seq<Kernel>, r: Seq<char>)
    requires
        find_record(s, r) is Some,
    ensures
        find_record(s, r)->0.report_id@ == r,
        exists|i: int|
            0 <= i < s.len() && s[i] == find_record(s, r)->0,
    decreases s.len(),
{
    if s.len() > 0 {
        if s[0].report_id@ == r {
            assert(s[0] == find_record(s, r)->0);
        } else {
            lemma_find_record_witness(s.drop_first(), r);
            let i = choose|i: int|
                0 <= i < s.drop_first().len() && s.drop_first()[i] == find_record(s, r)->0;
            assert(s[i + 1] == find_record(s, r)->0);
        }
    }
}

impl Config {
    /// An equal copy of the configuration.
    pub fn duplicate(&self) -> (r: Config)
        ensures
            r == *self,
    {
        Config {
            ip: self.ip.clone(),
            hb_port: self.hb_port,
            control_port: self.control_port,
            shell_port: self.shell_port,
            iopub_port: self.iopub_port,
            stdin_port: self.stdin_port,
        }
    }
}

impl Kernel {
    /// An equal copy of the record.
    pub fn duplicate(&self) -> (r: Kernel)
        ensures
            r == *self,
    {
        Kernel {
            id: self.id.clone(),
            process_id: self.process_id,
            config: match &self.config {
                Some(c) => Some(c.duplicate()),
                None => None,
            },
            status: self.status,
            report_id: self.report_id.clone(),
        }
    }
}

/// What a committed launch leaves behind: the returned record is running
/// under the given report id, process and ports, the registry maps that id to
/// it and no other id changed, and the pool is untouched.
pub open spec fn launched(
    pre: KernelManager,
    post: KernelManager,
    rid: Seq<char>,
    c: Config,
    pid: u32,
    k: Kernel,
) -> bool {
    &&& k.report_id@ == rid
    &&& k.status == KernelStatus::Running
    &&& k.process_id == Some(pid)
    &&& k.config == Some(c)
    &&& post.spec_get(rid) == Some(k)
    &&& forall|r2: Seq<char>| r2 != rid ==> #[trigger] post.spec_get(r2) == pre.spec_get(r2)
    &&& post.pool() == pre.pool()
    &&& post.records().len() == pre.records().len() + (if pre.spec_get(rid) is Some {
        0int
    } else {
        1int
    })
}

/// Which failure a kill reports, if any: an unknown id fails before the
/// signal, and an undelivered signal fails after it.
pub open spec fn kill_error(pre: KernelManager, rid: Seq<char>, delivered: bool) -> Option<
    KernelError,
> {
    if pre.spec_get(rid) is None {
        Some(KernelError::NotFoundError)
    } else if !delivered {
        Some(KernelError::TerminateError)
    } else {
        None
    }
}

impl KernelManager {
    /// A segment start held by nobody: on the grid, inside the range, neither
    /// in the pool nor assigned to a record.
    pub open spec fn segment_free(self, s: u32) -> bool {
        &&& self.seg_in_range(s)
        &&& forall|i: int| 0 <= i < self.pool().len() ==> self.pool()[i] != s
        &&& forall|i: int|
            0 <= i < self.records().len()
                ==> (#[trigger] self.records()[i]).config->0.hb_port != s
    }

    /// A configuration fit to launch with: a proper segment whose start is
    /// currently held by nobody.
    pub open spec fn segment_ready(self, c: Config) -> bool {
        &&& is_segment(c)
        &&& self.segment_free(c.hb_port)
    }

    /// Decides `segment_free` by checking the range, the grid, the pool and
    /// the registry.
    fn segment_is_free(&self, s: u32) -> (b: bool)
        requires
            self.well_formed(),
        ensures
            b == self.segment_free(s),
    {
        if !(self.range_lo <= s && self.range_hi >= 5 && s <= self.range_hi - 5) {
            return false;
        }
        if (s - self.range_lo) % 5 != 0 {
            proof {
                if self.seg_in_range(s) {
                    let k = choose|k: int|
                        0 <= k && s == self.spec_lo() + #[trigger] (5 * k);
                    vstd::arithmetic::div_mod::lemma_mod_multiples_basic(k, 5);
                }
            }
            return false;
        }
        proof {
            let d = s - self.spec_lo();
            vstd::arithmetic::div_mod::lemma_fundamental_div_mod(d as int, 5);
            assert(s == self.spec_lo() + 5 * (d as int / 5));
        }
        let n = self.available_ports.len();
        let mut i: usize = 0;
        while i < n
            invariant
                n == self.pool().len(),
                i <= n,
                forall|j: int| 0 <= j < i ==> self.pool()[j] != s,
            decreases n - i,
        {
            if self.available_ports[i] == s {
                return false;
            }
            i += 1;
        }
        let m = self.kernels.len();
        let mut j: usize = 0;
        while j < m
            invariant
                self.well_formed(),
                m == self.records().len(),
                j <= m,
                forall|t: int|
                    0 <= t < j ==> (#[trigger] self.records()[t]).config->0.hb_port != s,
            decreases m - j,
        {
            proof {
                assert(self.record_live(self.records()[j as int]));
            }
            match &self.kernels[j].config {
                Some(c) => {
                    if c.hb_port == s {
                        return false;
                    }
                }
                None => {
                    proof {
                        assert(false);
                    }
                }
            }
            j += 1;
        }
        true
    }

    /// Proposes which pool entry to probe next: the head on the first
    /// attempt, afterwards a uniformly random entry — retrying a different
    /// segment rather than the same stale one. Once the attempts made have
    /// covered the pool's size, or when the pool is empty, proposes nothing.
    pub fn pick_candidate(&self, attempt: usize) -> (r: Option<(usize, u32)>)
        ensures
            (r is None) <==> attempt >= self.pool().len(),
            r matches Some(p) ==> p.0 < self.pool().len() && p.1 == self.pool()[p.0 as int] && (
            attempt == 0 ==> p.0 == 0),
    {
        if attempt >= self.available_ports.len() {
            None
        } else if attempt == 0 {
            Some((0, self.available_ports[0]))
        } else {
            let i = random_index(self.available_ports.len());
            Some((i, self.available_ports[i]))
        }
    }

    /// Commits the allocation of the pool entry at `index`: the entry leaves
    /// the pool and comes back as a five-port configuration at the given bind
    /// address, ready for a launch. Any index outside the pool — in
    /// particular any index at all once the pool is exhausted — reports
    /// `PortAllocationError` and changes nothing.
    pub fn allocate_at(&mut self, index: usize, ip: String) -> (r: Result<Config, KernelError>)
        requires
            old(self).well_formed(),
        ensures
            final(self).well_formed(),
            final(self).records() == old(self).records(),
            final(self).spec_lo() == old(self).spec_lo(),
            final(self).spec_hi() == old(self).spec_hi(),
            index >= old(self).pool().len() ==> {
                &&& r matches Err(e) && e == KernelError::PortAllocationError
                &&& final(self).pool() == old(self).pool()
            },
            index < old(self).pool().len() ==> {
                &&& r matches Ok(c) && c.ip == ip && c.hb_port == old(self).pool()[index as int]
                    && is_segment(c) && final(self).segment_ready(c)
                &&& final(self).pool() == old(self).pool().remove(index as int)
            },
    {
        if index >= self.available_ports.len() {
            return Err(KernelError::PortAllocationError);
        }
        let start = self.available_ports[index];
        proof {
            assert(old(self).seg_in_range(old(self).pool()[index as int]));
        }
        self.available_ports.remove(index);
        let config = Config {
            ip,
            hb_port: start,
            control_port: start + 1,
            shell_port: start + 2,
            iopub_port: start + 3,
            stdin_port: start + 4,
        };
        proof {
            let p = old(self).pool();
            let p2 = self.pool();
            assert forall|a: int| 0 <= a < p2.len() implies p2[a] == p[if a < index {
                a
            } else {
                a + 1
            }] by {}
            assert forall|a: int, b: int| 0 <= a < b < p2.len() implies p2[a] != p2[b] by {
                let a0 = if a < index { a } else { a + 1 };
                let b0 = if b < index { b } else { b + 1 };
                assert(p2[a] == p[a0] && p2[b] == p[b0]);
            }
            assert forall|a: int| 0 <= a < p2.len() implies self.seg_in_range(#[trigger] p2[a]) by {
                let a0 = if a < index { a } else { a + 1 };
                assert(p2[a] == p[a0]);
                assert(old(self).seg_in_range(p[a0]));
            }
            assert forall|a: int| 0 <= a < p2.len() implies p2[a] != config.hb_port by {
                let a0 = if a < index { a } else { a + 1 };
                assert(p2[a] == p[a0]);
            }
            assert forall|a: int, b: int|
                0 <= a < self.records().len() && 0 <= b < p2.len() implies self.records()[a].config->0.hb_port
                != p2[b] by {
                let b0 = if b < index { b } else { b + 1 };
                assert(p2[b] == p[b0]);
            }
            assert(self.segment_ready(config));
        }
        Ok(config)
    }

    /// Commits a launch once the outside work is done: `config` is the
    /// allocated segment, `process_id` the spawned worker, and `alive` the
    /// outcome of the liveness confirmation. On success the new record —
    /// running, fully resourced — replaces any record under the same report
    /// id. A failed confirmation reports `KernelNotRunningError` and releases
    /// the segment back to the pool. A configuration that is not an
    /// unassigned in-range segment is as good as a bind conflict and reports
    /// `PortAllocationError`.
    pub fn launch(
        &mut self,
        report_id: String,
        config: Config,
        process_id: u32,
        alive: bool,
    ) -> (r: Result<Kernel, KernelError>)
        requires
            old(self).well_formed(),
        ensures
            final(self).well_formed(),
            final(self).spec_lo() == old(self).spec_lo(),
            final(self).spec_hi() == old(self).spec_hi(),
            !old(self).segment_ready(config) ==> {
                &&& r matches Err(e) && e == KernelError::PortAllocationError
                &&& final(self).records() == old(self).records()
                &&& final(self).pool() == old(self).pool()
            },
            old(self).segment_ready(config) && !alive ==> {
                &&& r matches Err(e) && e == KernelError::KernelNotRunningError
                &&& final(self).records() == old(self).records()
                &&& final(self).pool() == old(self).pool().push(config.hb_port)
            },
            old(self).segment_ready(config) && alive ==> (r matches Ok(k) && launched(
                *old(self),
                *final(self),
                report_id@,
                config,
                process_id,
                k,
            )),
    {
        if !self.segment_is_free(config.hb_port) {
            return Err(KernelError::PortAllocationError);
        }
        let is_proper = config.control_port == config.hb_port + 1
            && config.shell_port == config.hb_port + 2 && config.iopub_port == config.hb_port + 3
            && config.stdin_port == config.hb_port + 4;
        if !is_proper {
            return Err(KernelError::PortAllocationError);
        }
        if !alive {
            self.available_ports.push(config.hb_port);
            proof {
                let p = old(self).pool();
                let p2 = self.pool();
                assert forall|a: int, b: int| 0 <= a < b < p2.len() implies p2[a] != p2[b] by {
                    if b == p2.len() - 1 {
                        assert(p2[b] == config.hb_port);
                        assert(p2[a] == p[a]);
                    } else {
                        assert(p2[a] == p[a] && p2[b] == p[b]);
                    }
                }
            }
            return Err(KernelError::KernelNotRunningError);
        }
        let mut kernel = Kernel::new(report_id);
        kernel.process_id = Some(process_id);
        kernel.status = KernelStatus::Running;
        let ghost rid = kernel.report_id@;
        let ghost pre = *old(self);
        match self.find_index(&kernel.report_id) {
            Some(i) => {
                proof {
                    assert forall|j: int|
                        0 <= j < pre.records().len() && j != i implies pre.records()[j].report_id@
                        != rid by {}
                    let s2 = pre.records().remove(i as int);
                    assert forall|a: int| 0 <= a < s2.len() implies s2[a] == pre.records()[
                        if a < i { a } else { a + 1 }
                    ] by {}
                    assert forall|a: int| 0 <= a < s2.len() implies s2[a].report_id@ != rid by {}
                    lemma_find_record_absent(s2, rid);
                    assert forall|r2: Seq<char>| r2 != rid implies find_record(s2, r2)
                        == find_record(pre.records(), r2) by {
                        lemma_find_record_remove(pre.records(), i as int, r2);
                    }
                }
                self.kernels.remove(i);
            }
            None => {}
        }
        kernel.config = Some(config);
        let result = kernel.duplicate();
        let ghost mid = *self;
        proof {
            assert(find_record(mid.records(), rid) is None) by {
                if pre.spec_get(rid) is None {
                    assert(mid.records() == pre.records());
                }
            }
            lemma_find_record_none_absent(mid.records(), rid);
        }
        self.kernels.push(kernel);
        proof {
            lemma_find_record_push(mid.records(), kernel, rid);
            assert forall|r2: Seq<char>| r2 != rid implies #[trigger] self.spec_get(r2)
                == pre.spec_get(r2) by {
                lemma_find_record_push(mid.records(), kernel, r2);
                if find_record(mid.records(), r2) is None {
                    if pre.spec_get(r2) is Some {
                        if pre.spec_get(rid) is Some {
                        } else {
                            assert(mid.records() == pre.records());
                        }
                    }
                }
            }
            let s = mid.records();
            let s2 = self.records();
            assert(s2 == s.push(kernel));
            assert forall|a: int, b: int|
                0 <= a < b < s2.len() implies s2[a].report_id@ != s2[b].report_id@ by {
                if b == s2.len() - 1 {
                    assert(s2[b] == kernel);
                } else {
                }
            }
            assert forall|a: int| 0 <= a < s2.len() implies self.record_live(
                #[trigger] s2[a],
            ) by {
                if a == s2.len() - 1 {
                    assert(s2[a] == kernel);
                } else {
                    assert(pre.record_live(s[a]) || mid.record_live(s[a]));
                }
            }
            assert forall|a: int, b: int|
                0 <= a < b < s2.len() implies s2[a].config->0.hb_port != s2[b].config->0.hb_port by {
                if b == s2.len() - 1 {
                    assert(s2[b] == kernel);
                } else {
                }
            }
            assert forall|a: int, b: int|
                0 <= a < s2.len() && 0 <= b < self.pool().len() implies s2[a].config->0.hb_port
                != self.pool()[b] by {
                if a == s2.len() - 1 {
                    assert(s2[a] == kernel);
                } else {
                }
            }
        }
        Ok(result)
    }

    /// Returns an allocated segment to the pool when the spawn that should
    /// have used it failed: with this, every exit path of a launch releases
    /// what it acquired. Only a proper segment held by nobody is taken back;
    /// the flag says whether the release happened.
    pub fn abort_launch(&mut self, config: Config) -> (released: bool)
        requires
            old(self).well_formed(),
        ensures
            final(self).well_formed(),
            final(self).records() == old(self).records(),
            final(self).spec_lo() == old(self).spec_lo(),
            final(self).spec_hi() == old(self).spec_hi(),
            released == old(self).segment_ready(config),
            released ==> final(self).pool() == old(self).pool().push(config.hb_port),
            !released ==> final(self).pool() == old(self).pool(),
    {
        if !self.segment_is_free(config.hb_port) {
            return false;
        }
        let is_proper = config.control_port == config.hb_port + 1
            && config.shell_port == config.hb_port + 2 && config.iopub_port == config.hb_port + 3
            && config.stdin_port == config.hb_port + 4;
        if !is_proper {
            return false;
        }
        self.available_ports.push(config.hb_port);
        proof {
            let p = old(self).pool();
            let p2 = self.pool();
            assert forall|a: int, b: int| 0 <= a < b < p2.len() implies p2[a] != p2[b] by {
                if b == p2.len() - 1 {
                    assert(p2[b] == config.hb_port);
                    assert(p2[a] == p[a]);
                } else {
                    assert(p2[a] == p[a] && p2[b] == p[b]);
                }
            }
        }
        true
    }

    /// Completes a kill once the outside work is done: `delivered` is whether
    /// the termination signal reached the process looked up beforehand. An
    /// unknown report id reports `NotFoundError` and an undelivered signal
    /// `TerminateError`, both leaving everything untouched; on success the
    /// record is removed outright — no tombstone stays — and its port segment
    /// returns to the pool.
    pub fn kill(&mut self, report_id: &String, delivered: bool) -> (r: Result<bool, KernelError>)
        requires
            old(self).well_formed(),
        ensures
            final(self).well_formed(),
            final(self).spec_lo() == old(self).spec_lo(),
            final(self).spec_hi() == old(self).spec_hi(),
            kill_error(*old(self), report_id@, delivered) matches Some(e) ==> {
                &&& r matches Err(e2) && e2 == e
                &&& final(self).records() == old(self).records()
                &&& final(self).pool() == old(self).pool()
            },
            kill_error(*old(self), report_id@, delivered) is None ==> {
                &&& r matches Ok(b) && b
                &&& final(self).spec_get(report_id@) is None
                &&& forall|r2: Seq<char>|
                    r2 != report_id@ ==> #[trigger] final(self).spec_get(r2) == old(self).spec_get(
                        r2,
                    )
                &&& final(self).pool() == old(self).pool().push(
                    old(self).spec_get(report_id@)->0.config->0.hb_port,
                )
                &&& final(self).records().len() + 1 == old(self).records().len()
            },
    {
        let ghost pre = *old(self);
        let ghost rid = report_id@;
        match self.find_index(report_id) {
            None => Err(KernelError::NotFoundError),
            Some(i) => {
                if !delivered {
                    return Err(KernelError::TerminateError);
                }
                proof {
                    assert(pre.record_live(pre.records()[i as int]));
                }
                let start = self.kernels[i].config.as_ref().unwrap().hb_port;
                self.kernels.remove(i);
                proof {
                    let s2 = self.records();
                    assert forall|a: int| 0 <= a < s2.len() implies s2[a] == pre.records()[
                        if a < i { a } else { a + 1 }
                    ] by {}
                    assert forall|j: int|
                        0 <= j < pre.records().len() && j != i implies pre.records()[j].report_id@
                        != rid by {}
                    assert forall|a: int| 0 <= a < s2.len() implies s2[a].report_id@ != rid by {}
                    lemma_find_record_absent(s2, rid);
                    assert forall|r2: Seq<char>| r2 != rid implies #[trigger] find_record(s2, r2)
                        == find_record(pre.records(), r2) by {
                        lemma_find_record_remove(pre.records(), i as int, r2);
                    }
                    assert forall|a: int, b: int|
                        0 <= a < b < s2.len() implies s2[a].report_id@ != s2[b].report_id@ by {
                        let a0 = if a < i { a } else { a + 1 };
                        let b0 = if b < i { b } else { b + 1 };
                        assert(s2[a] == pre.records()[a0] && s2[b] == pre.records()[b0]);
                    }
                    assert forall|a: int, b: int|
                        0 <= a < b < s2.len() implies s2[a].config->0.hb_port
                        != s2[b].config->0.hb_port by {
                        let a0 = if a < i { a } else { a + 1 };
                        let b0 = if b < i { b } else { b + 1 };
                        assert(s2[a] == pre.records()[a0] && s2[b] == pre.records()[b0]);
                    }
                }
                self.available_ports.push(start);
                proof {
                    let p = pre.pool();
                    let p2 = self.pool();
                    let s2 = self.records();
                    assert forall|a: int, b: int| 0 <= a < b < p2.len() implies p2[a] != p2[b] by {
                        if b == p2.len() - 1 {
                            assert(p2[b] == start && p2[a] == p[a]);
                        } else {
                            assert(p2[a] == p[a] && p2[b] == p[b]);
                        }
                    }
                    assert forall|a: int| 0 <= a < p2.len() implies self.seg_in_range(
                        #[trigger] p2[a],
                    ) by {
                        if a == p2.len() - 1 {
                            assert(p2[a] == start);
                        } else {
                            assert(p2[a] == p[a]);
                        }
                    }
                    assert forall|a: int, b: int|
                        0 <= a < s2.len() && 0 <= b < p2.len() implies s2[a].config->0.hb_port
                        != p2[b] by {
                        let a0 = if a < i { a } else { a + 1 };
                        assert(s2[a] == pre.records()[a0]);
                        if b == p2.len() - 1 {
                            assert(p2[b] == start);
                        } else {
                            assert(p2[b] == p[b]);
                        }
                    }
                }
                Ok(true)
            }
        }
    }
}

} // verus!
