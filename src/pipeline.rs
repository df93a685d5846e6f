//! The double-buffered transfer pipeline: it brings one round of the source
//! stream into a half of the buffer pool while the other half is worked on,
//! and writes each finished round back.

use vstd::prelude::*;
use crate::error::Error;
use crate::geometry::{
    core_hi_spec, core_lo_spec, core_range, lemma_round_bounds, round_count, round_count_spec, round_len,
    round_len_spec, MAX_CORES,
};
use crate::keystream::KEYSTREAM_LIMIT;
use crate::pool::BufferPool;

verus! {

/// Direction of a transfer between scratchpad ("local") and a far tier
/// ("external").
#[allow(non_camel_case_types)]
#[derive(Clone, Copy, Debug, PartialEq, Eq, Structural)]
pub enum PiClDmaDirE {
    /// Scratchpad to far memory.
    PI_CL_DMA_DIR_LOC2EXT,
    /// Far memory to scratchpad.
    PI_CL_DMA_DIR_EXT2LOC,
}

/// A far-memory device, known by its handle.
#[derive(Clone, Copy, Debug, PartialEq, Eq, Structural)]
pub struct PiDevice {
    pub handle: usize,
}

/// Where the source stream lives.
#[derive(Clone, Copy, Debug, PartialEq, Eq, Structural)]
pub enum SourceLocation {
    /// Cluster scratchpad.
    L1,
    /// On-chip shared memory, reached by the cluster's transfer engine.
    L2,
    /// Off-chip memory, reached through the given device.
    Ram(PiDevice),
}

/// One transfer between scratchpad and the source's tier: its direction,
/// the round it belongs to, and the span of the source stream it moves.
#[derive(Clone, Copy, Debug, PartialEq, Eq, Structural)]
pub struct Transfer {
    pub dir: PiClDmaDirE,
    pub round: usize,
    pub offset: usize,
    pub len: usize,
}

/// A transfer that the engine is set up to report as failed: the one in
/// direction `dir` belonging to round `round`.
#[derive(Clone, Copy, Debug, PartialEq, Eq, Structural)]
pub struct DmaFault {
    pub dir: PiClDmaDirE,
    pub round: usize,
}

/// The transfer in direction `dir` of round `r` of a stream of `len` bytes
/// in rounds of `work` bytes.
pub open spec fn round_transfer(dir: PiClDmaDirE, len: int, work: int, r: int) -> Transfer {
    Transfer { dir, round: r as usize, offset: (r * work) as usize, len: round_len_spec(len, work, r) as usize }
}

/// The first `n` transfers of an operation: round by round, the transfer
/// in, then the transfer out.
pub open spec fn transfer_plan(len: int, work: int, n: int) -> Seq<Transfer> {
    Seq::new(n as nat, |i: int| round_transfer(
        if i % 2 == 0 { PiClDmaDirE::PI_CL_DMA_DIR_EXT2LOC } else { PiClDmaDirE::PI_CL_DMA_DIR_LOC2EXT },
        len, work, i / 2))
}

/// The plan grows by the transfer in of round `r` after `2 * r` entries and
/// by its transfer out after `2 * r + 1`.
pub proof fn lemma_transfer_plan_push(len: int, work: int, r: int)
    requires
        r >= 0,
    ensures
        transfer_plan(len, work, 2 * r).push(round_transfer(PiClDmaDirE::PI_CL_DMA_DIR_EXT2LOC, len, work, r))
            == transfer_plan(len, work, 2 * r + 1),
        transfer_plan(len, work, 2 * r + 1).push(round_transfer(PiClDmaDirE::PI_CL_DMA_DIR_LOC2EXT, len, work, r))
            == transfer_plan(len, work, 2 * r + 2),
{
    assert((2 * r) % 2 == 0 && (2 * r) / 2 == r);
    assert((2 * r + 1) % 2 == 1 && (2 * r + 1) / 2 == r);
    assert(transfer_plan(len, work, 2 * r).push(round_transfer(PiClDmaDirE::PI_CL_DMA_DIR_EXT2LOC, len, work, r))
        =~= transfer_plan(len, work, 2 * r + 1));
    assert(transfer_plan(len, work, 2 * r + 1).push(round_transfer(PiClDmaDirE::PI_CL_DMA_DIR_LOC2EXT, len, work, r))
        =~= transfer_plan(len, work, 2 * r + 2));
}

/// The cluster's transfer engine. It keeps a log of every transfer issued,
/// and can be set up to report one given transfer as failed.
pub struct Dma {
    pub fault: Option<DmaFault>,
    pub log: Vec<Transfer>,
}

impl Dma {
    /// Whether transfer `t` is reported as failed.
    pub open spec fn fails(&self, t: Transfer) -> bool {
        self.fault == Some(DmaFault { dir: t.dir, round: t.round })
    }

    /// An engine on which every transfer succeeds.
    pub fn new() -> (d: Dma)
        ensures
            d.fault is None,
            d.log@.len() == 0,
    {
        Dma { fault: None, log: Vec::new() }
    }

    /// An engine that reports the transfer in direction `dir` of round
    /// `round` as failed.
    pub fn with_fault(dir: PiClDmaDirE, round: usize) -> (d: Dma)
        ensures
            d.fault == Some(DmaFault { dir, round }),
            d.log@.len() == 0,
    {
        Dma { fault: Some(DmaFault { dir, round }), log: Vec::new() }
    }

    /// Number of transfers issued so far.
    pub fn transfers(&self) -> (n: usize)
        ensures
            n == self.log@.len(),
    {
        self.log.len()
    }

    /// The transfers issued so far, oldest first.
    pub fn log(&self) -> (l: &Vec<Transfer>)
        ensures
            l@ == self.log@,
    {
        &self.log
    }

    /// Issues transfer `t` and waits for it; tells whether it completed.
    pub fn issue(&mut self, t: Transfer) -> (ok: bool)
        ensures
            ok == !old(self).fails(t),
            final(self).fault == old(self).fault,
            final(self).log@ == old(self).log@.push(t),
    {
        self.log.push(t);
        match self.fault {
            Some(f) => !(f.dir == t.dir && f.round == t.round),
            None => true,
        }
    }
}

/// `dst` with `src` written over it from index `at` on.
pub open spec fn splice(dst: Seq<u8>, at: int, src: Seq<u8>) -> Seq<u8> {
    Seq::new(dst.len(), |i: int| if at <= i < at + src.len() { src[i - at] } else { dst[i] })
}

/// Copies `n` bytes of `src` from `from` into `dst` at `at`.
fn copy_bytes(dst: &mut Vec<u8>, at: usize, src: &Vec<u8>, from: usize, n: usize)
    requires
        at + n <= old(dst)@.len(),
        from + n <= src@.len(),
    ensures
        final(dst)@ == splice(old(dst)@, at as int, src@.subrange(from as int, from + n)),
{
    let dst_len = dst.len();
    let src_len = src.len();
    let mut i: usize = 0;
    assert(dst@ =~= splice(old(dst)@, at as int, src@.subrange(from as int, from as int)));
    while i < n
        invariant
            i <= n,
            at + n <= dst_len,
            dst@.len() == dst_len,
            from + n <= src_len,
            src@.len() == src_len,
            dst@ == splice(old(dst)@, at as int, src@.subrange(from as int, from + i)),
        decreases n - i,
    {
        dst.set(at + i, src[from + i]);
        i = i + 1;
        assert(dst@ =~= splice(old(dst)@, at as int, src@.subrange(from as int, from + i)));
    }
}

/// Phase of the pipeline.
#[derive(Clone, Copy, Debug, PartialEq, Eq, Structural)]
pub enum PipelineState {
    /// The first round was brought in; no work handed out yet.
    Priming,
    /// A round is being worked on and another one follows.
    Steady,
    /// The last round is being worked on; nothing more to bring in.
    Draining,
    /// Everything was written back.
    Done,
}

/// Round state of one operation over a stream of `len` bytes, in rounds of
/// `work` bytes (one buffer half).
pub struct DmaPipeline {
    pub len: usize,
    pub work: usize,
    pub cores: usize,
    pub round: usize,
    pub active: usize,
    pub state: PipelineState,
    pub loc: SourceLocation,
}

impl DmaPipeline {
    /// Number of rounds.
    pub open spec fn rounds(&self) -> int {
        round_count_spec(self.len as int, self.work as int)
    }

    /// Bytes of the current round.
    pub open spec fn cur_len(&self) -> int {
        round_len_spec(self.len as int, self.work as int, self.round as int)
    }

    /// Start of the current round in the source stream.
    pub open spec fn offset(&self) -> int {
        self.round * self.work
    }

    /// Start of the active half in the pool.
    pub open spec fn active_start(&self) -> int {
        self.active * self.work
    }

    pub open spec fn wf(&self) -> bool {
        &&& self.work > 0
        &&& 0 < self.cores <= MAX_CORES
        &&& self.work as int % self.cores as int == 0
        &&& self.len <= KEYSTREAM_LIMIT
        &&& self.work <= KEYSTREAM_LIMIT
        &&& self.active < 2
        &&& self.round <= self.rounds()
    }

    /// The pipeline was made for `pool`.
    pub open spec fn fits(&self, pool: &BufferPool) -> bool {
        &&& pool.wf()
        &&& pool.cores == self.cores
        &&& pool.half_len_spec() == self.work
    }

    /// The active half of `pool` holds the current round of `source`.
    pub open spec fn holds_round(&self, pool: &BufferPool, source: Seq<u8>) -> bool {
        self.round < self.rounds() ==> pool.data@.subrange(
            self.active_start(),
            self.active_start() + self.cur_len(),
        ) == source.subrange(self.offset(), self.offset() + self.cur_len())
    }

    /// The active half lies within `pool`, and the current round fits in it.
    pub proof fn lemma_active_half(&self, pool: &BufferPool)
        requires
            self.wf(),
            self.fits(pool),
        ensures
            self.active_start() == if self.active == 0 { 0 } else { self.work as int },
            self.active_start() + self.work <= pool.data@.len(),
            pool.data@.len() == 2 * self.work,
            self.round < self.rounds() ==> 0 < self.cur_len() <= self.work,
    {
        if self.active == 1 {
            assert(self.active * self.work == self.work) by (nonlinear_arith)
                requires self.active == 1;
        }
        pool.lemma_geometry();
        if self.round < self.rounds() {
            lemma_round_bounds(self.len as int, self.work as int, self.round as int);
        }
    }

    /// The transfer writing the current round back.
    pub open spec fn out_transfer(&self) -> Transfer {
        round_transfer(PiClDmaDirE::PI_CL_DMA_DIR_LOC2EXT, self.len as int, self.work as int, self.round as int)
    }

    /// The transfer bringing in the next round.
    pub open spec fn in_transfer(&self) -> Transfer {
        round_transfer(PiClDmaDirE::PI_CL_DMA_DIR_EXT2LOC, self.len as int, self.work as int, self.round + 1)
    }

    /// The state after handing out work in round `round`.
    pub open spec fn working_state(&self) -> PipelineState {
        if self.round + 1 >= self.rounds() { PipelineState::Draining } else { PipelineState::Steady }
    }

    /// The two pipelines agree on everything but the state.
    pub open spec fn same_progress(&self, o: &DmaPipeline) -> bool {
        &&& self.len == o.len
        &&& self.work == o.work
        &&& self.cores == o.cores
        &&& self.round == o.round
        &&& self.active == o.active
        &&& self.loc == o.loc
    }

    /// Binds a pipeline to `source` and `pool` and brings the first round
    /// into half 0.
    fn prime(source: &Vec<u8>, pool: &mut BufferPool, dma: &mut Dma, loc: SourceLocation) -> (r: Result<DmaPipeline, Error>)
        requires
            old(pool).wf(),
            source@.len() <= KEYSTREAM_LIMIT,
        ensures
            final(pool).cores == old(pool).cores,
            final(pool).data@.len() == old(pool).data@.len(),
            final(dma).fault == old(dma).fault,
            source@.len() == 0 ==> r is Ok && final(dma).log@ == old(dma).log@ && final(pool).data@ == old(pool).data@,
            source@.len() > 0 ==> final(dma).log@ == old(dma).log@ + transfer_plan(source@.len() as int,
                old(pool).half_len_spec(), 1),
            r is Err <==> (source@.len() > 0 && old(dma).fault == Some(
                DmaFault { dir: PiClDmaDirE::PI_CL_DMA_DIR_EXT2LOC, round: 0 })),
            r is Err ==> r == Err::<DmaPipeline, Error>(Error::TransferFailure { round: 0 }),
            r matches Ok(p) ==> p.wf() && p.fits(final(pool)) && p.len == source@.len() && p.round == 0 && p.active == 0
                && p.loc == loc && p.state == PipelineState::Priming && p.holds_round(final(pool), source@),
    {
        let work = pool.full_work_buf_len();
        let p = DmaPipeline {
            len: source.len(),
            work,
            cores: pool.cores,
            round: 0,
            active: 0,
            state: PipelineState::Priming,
            loc,
        };
        if source.len() == 0 {
            return Ok(p);
        }
        proof {
            let l = source@.len() as int;
            let w = work as int;
            if l % w == 0 {
                assert(l / w > 0) by (nonlinear_arith)
                    requires l > 0, w > 0, l % w == 0;
            } else {
                assert(l / w >= 0) by (nonlinear_arith)
                    requires l > 0, w > 0;
            }
        }
        let n = round_len(source.len(), work, 0);
        proof {
            lemma_transfer_plan_push(source@.len() as int, work as int, 0);
            assert(old(dma).log@.push(round_transfer(PiClDmaDirE::PI_CL_DMA_DIR_EXT2LOC, source@.len() as int, work as int, 0))
                =~= old(dma).log@ + transfer_plan(source@.len() as int, work as int, 1));
        }
        let t = Transfer { dir: PiClDmaDirE::PI_CL_DMA_DIR_EXT2LOC, round: 0, offset: 0, len: n };
        if !dma.issue(t) {
            return Err(Error::TransferFailure { round: 0 });
        }
        copy_bytes(&mut pool.data, 0, source, 0, n);
        assert(pool.data@.subrange(0, n as int) =~= source@.subrange(0, n as int));
        Ok(p)
    }

    /// Pipeline over a source in on-chip shared memory; brings in the first
    /// round before it returns.
    pub fn new_from_l2(source: &Vec<u8>, pool: &mut BufferPool, dma: &mut Dma) -> (r: Result<DmaPipeline, Error>)
        requires
            old(pool).wf(),
            source@.len() <= KEYSTREAM_LIMIT,
        ensures
            final(pool).cores == old(pool).cores,
            final(pool).data@.len() == old(pool).data@.len(),
            final(dma).fault == old(dma).fault,
            source@.len() == 0 ==> r is Ok && final(dma).log@ == old(dma).log@ && final(pool).data@ == old(pool).data@,
            source@.len() > 0 ==> final(dma).log@ == old(dma).log@ + transfer_plan(source@.len() as int,
                old(pool).half_len_spec(), 1),
            r is Err <==> (source@.len() > 0 && old(dma).fault == Some(
                DmaFault { dir: PiClDmaDirE::PI_CL_DMA_DIR_EXT2LOC, round: 0 })),
            r is Err ==> r == Err::<DmaPipeline, Error>(Error::TransferFailure { round: 0 }),
            r matches Ok(p) ==> p.wf() && p.fits(final(pool)) && p.len == source@.len() && p.round == 0 && p.active == 0
                && p.loc == SourceLocation::L2 && p.state == PipelineState::Priming && p.holds_round(final(pool), source@),
    {
        Self::prime(source, pool, dma, SourceLocation::L2)
    }

    /// Pipeline over a source in off-chip memory behind `device`; brings in
    /// the first round before it returns.
    pub fn new_from_ram(source: &Vec<u8>, pool: &mut BufferPool, device: PiDevice, dma: &mut Dma) -> (r: Result<DmaPipeline, Error>)
        requires
            old(pool).wf(),
            source@.len() <= KEYSTREAM_LIMIT,
        ensures
            final(pool).cores == old(pool).cores,
            final(pool).data@.len() == old(pool).data@.len(),
            final(dma).fault == old(dma).fault,
            source@.len() == 0 ==> r is Ok && final(dma).log@ == old(dma).log@ && final(pool).data@ == old(pool).data@,
            source@.len() > 0 ==> final(dma).log@ == old(dma).log@ + transfer_plan(source@.len() as int,
                old(pool).half_len_spec(), 1),
            r is Err <==> (source@.len() > 0 && old(dma).fault == Some(
                DmaFault { dir: PiClDmaDirE::PI_CL_DMA_DIR_EXT2LOC, round: 0 })),
            r is Err ==> r == Err::<DmaPipeline, Error>(Error::TransferFailure { round: 0 }),
            r matches Ok(p) ==> p.wf() && p.fits(final(pool)) && p.len == source@.len() && p.round == 0 && p.active == 0
                && p.loc == SourceLocation::Ram(device) && p.state == PipelineState::Priming
                && p.holds_round(final(pool), source@),
    {
        Self::prime(source, pool, dma, SourceLocation::Ram(device))
    }

    /// The byte range of `pool` that core `core_id` works on in the current
    /// round: its share of the round's bytes in the active half.
    pub fn get_work_buf(&mut self, core_id: usize) -> (r: (usize, usize))
        requires
            old(self).wf(),
            old(self).round < old(self).rounds(),
            core_id < old(self).cores,
        ensures
            final(self).wf(),
            final(self).same_progress(old(self)),
            final(self).state == if old(self).state == PipelineState::Priming {
                old(self).working_state()
            } else {
                old(self).state
            },
            r.0 == old(self).active_start() + core_lo_spec(old(self).cur_len(), old(self).cores as int, core_id as int),
            r.1 == old(self).active_start() + core_hi_spec(old(self).cur_len(), old(self).cores as int, core_id as int),
            old(self).active_start() <= r.0 <= r.1 <= old(self).active_start() + old(self).cur_len(),
    {
        let n = round_len(self.len, self.work, self.round);
        let (lo, hi) = core_range(n, self.cores, core_id);
        if self.state == PipelineState::Priming {
            let rounds = round_count(self.len, self.work);
            self.state = if self.round + 1 >= rounds { PipelineState::Draining } else { PipelineState::Steady };
        }
        let base = if self.active == 0 { 0 } else { self.work };
        proof {
            if self.active == 1 {
                assert(self.active * self.work == self.work) by (nonlinear_arith)
                    requires self.active == 1;
            }
        }
        (base + lo, base + hi)
    }

    /// Ends the current round: writes the active half's bytes back to
    /// `source`, brings the next round (if any) into the other half, and
    /// makes that half the active one.
    pub fn advance(&mut self, pool: &mut BufferPool, source: &mut Vec<u8>, dma: &mut Dma) -> (r: Result<(), Error>)
        requires
            old(self).wf(),
            old(self).fits(old(pool)),
            old(self).round < old(self).rounds(),
            old(source)@.len() == old(self).len,
        ensures
            final(self).wf(),
            final(self).fits(final(pool)),
            final(pool).data@.len() == old(pool).data@.len(),
            final(pool).cores == old(pool).cores,
            final(dma).fault == old(dma).fault,
            old(dma).fails(old(self).out_transfer()) ==> r == Err::<(), Error>(Error::TransferFailure { round: old(self).round })
                && final(source)@ == old(source)@
                && final(dma).log@ == old(dma).log@.push(old(self).out_transfer()),
            !old(dma).fails(old(self).out_transfer()) ==> final(source)@ == splice(old(source)@, old(self).offset(),
                old(pool).data@.subrange(old(self).active_start(), old(self).active_start() + old(self).cur_len())),
            !old(dma).fails(old(self).out_transfer()) && old(self).round + 1 < old(self).rounds()
                ==> final(dma).log@ == old(dma).log@.push(old(self).out_transfer()).push(old(self).in_transfer())
                && (r is Err <==> old(dma).fails(old(self).in_transfer()))
                && (r is Err ==> r == Err::<(), Error>(Error::TransferFailure { round: (old(self).round + 1) as usize })),
            !old(dma).fails(old(self).out_transfer()) && old(self).round + 1 >= old(self).rounds()
                ==> final(dma).log@ == old(dma).log@.push(old(self).out_transfer()) && r is Ok,
            r is Ok ==> final(self).round == old(self).round + 1
                && final(self).active == 1 - old(self).active
                && final(self).len == old(self).len && final(self).work == old(self).work
                && final(self).cores == old(self).cores && final(self).loc == old(self).loc
                && final(self).holds_round(final(pool), final(source)@),
    {
        let n = round_len(self.len, self.work, self.round);
        let base = if self.active == 0 { 0 } else { self.work };
        let offset = self.round * self.work;
        let out = Transfer { dir: PiClDmaDirE::PI_CL_DMA_DIR_LOC2EXT, round: self.round, offset, len: n };
        if !dma.issue(out) {
            return Err(Error::TransferFailure { round: self.round });
        }
        copy_bytes(source, offset, &pool.data, base, n);
        let rounds = round_count(self.len, self.work);
        let next = self.round + 1;
        let other = 1 - self.active;
        if next < rounds {
            let m = round_len(self.len, self.work, next);
            proof {
                assert(next * self.work == offset + self.work) by (nonlinear_arith)
                    requires next == self.round + 1, offset == self.round * self.work;
                assert(other * self.work + self.work <= 2 * self.work) by (nonlinear_arith)
                    requires other < 2;
                lemma_round_bounds(self.len as int, self.work as int, next as int);
            }
            let next_offset = next * self.work;
            let inward = Transfer { dir: PiClDmaDirE::PI_CL_DMA_DIR_EXT2LOC, round: next, offset: next_offset, len: m };
            if !dma.issue(inward) {
                return Err(Error::TransferFailure { round: next });
            }
            let next_base = other * self.work;
            copy_bytes(&mut pool.data, next_base, source, next_offset, m);
            self.round = next;
            self.active = other;
            self.state = if next + 1 >= rounds { PipelineState::Draining } else { PipelineState::Steady };
            assert(pool.data@.subrange(next_base as int, next_base + m) =~= source@.subrange(next_offset as int, next_offset + m));
        } else {
            self.round = next;
            self.active = other;
            self.state = PipelineState::Draining;
        }
        Ok(())
    }

    /// Waits for every transfer still under way; the pipeline is then done.
    /// Calling it again changes nothing.
    pub fn flush(&mut self)
        ensures
            final(self).same_progress(old(self)),
            final(self).state == PipelineState::Done,
    {
        self.state = PipelineState::Done;
    }
}

} // verus!
