//! The per-core cipher routine. Every core runs it in lockstep, one round at
//! a time: each works on its own slice of the active half with a keystream
//! seeked to that slice's place in the stream, then the round ends for all.

use vstd::prelude::*;
use crate::error::Error;
use crate::geometry::{
    core_lo_spec, lemma_core_ranges, lemma_round_bounds, round_count, round_count_spec, round_len_spec, seek_position,
};
use crate::keystream::{apply_keystream_range, KEYSTREAM_LIMIT, lemma_xor_range_extend, xor_keystream, xor_range, Cipher};
use crate::pipeline::{
    lemma_transfer_plan_push, transfer_plan, Dma, DmaFault, DmaPipeline, PiClDmaDirE, SourceLocation,
};
use crate::pool::BufferPool;

verus! {

/// Bytes of the stream finished once `r` rounds are done.
pub open spec fn done_len(len: int, work: int, r: int) -> int {
    if r * work <= len { r * work } else { len }
}

proof fn lemma_done_step(len: int, work: int, r: int)
    requires
        len >= 0,
        work > 0,
        0 <= r < round_count_spec(len, work),
    ensures
        done_len(len, work, r) == r * work,
        r * work < len,
        done_len(len, work, r + 1) == r * work + round_len_spec(len, work, r),
{
    assert(r * work <= (len / work) * work) by (nonlinear_arith)
        requires r <= len / work, work > 0;
    assert(work * (len / work) + len % work == len) by (nonlinear_arith)
        requires work > 0;
    assert(0 <= len % work < work) by (nonlinear_arith)
        requires work > 0;
    if r == len / work {
        assert(len % work != 0);
    } else {
        assert((r + 1) * work <= (len / work) * work) by (nonlinear_arith)
            requires r + 1 <= len / work, work > 0;
    }
    assert((r + 1) * work == r * work + work) by (nonlinear_arith);
}

proof fn lemma_done_all(len: int, work: int)
    requires
        len >= 0,
        work > 0,
    ensures
        done_len(len, work, round_count_spec(len, work)) == len,
{
    let n = round_count_spec(len, work);
    assert(work * (len / work) + len % work == len) by (nonlinear_arith)
        requires work > 0;
    assert(0 <= len % work < work) by (nonlinear_arith)
        requires work > 0;
    assert(n * work >= len) by (nonlinear_arith)
        requires
            work * (len / work) + len % work == len,
            0 <= len % work < work,
            n == (if len % work == 0 { len / work } else { len / work + 1 }),
    ;
}

/// Whether a transfer set up to fail (`f`) lies in the part of the plan that
/// is already behind when round `r` is about to be worked on: the transfers
/// in of rounds `0..=r` and out of rounds `0..r`.
pub open spec fn fault_passed(f: DmaFault, r: int) -> bool {
    if f.dir == PiClDmaDirE::PI_CL_DMA_DIR_EXT2LOC { f.round <= r } else { f.round < r }
}

/// Length of the transfer plan up to and including a failed transfer of
/// round `k` in direction `dir`.
pub open spec fn plan_len_at_fault(dir: PiClDmaDirE, k: int) -> int {
    if dir == PiClDmaDirE::PI_CL_DMA_DIR_EXT2LOC { 2 * k + 1 } else { 2 * k + 2 }
}

/// The per-core routine, run on every core of the cluster in lockstep.
///
/// It binds a pipeline over `source` (in `loc`) and `pool`, bringing in the
/// first round. Then, round by round, every core combines its slice of the
/// active half with the keystream of `c` seeked to the slice's place in the
/// stream, and the round ends: its bytes are written back to `source` and
/// the next round is brought in. The transfers follow the plan, one in and
/// one out per round and not per core.
///
/// On success `source` holds the whole stream combined with the keystream
/// from position 0. When a transfer of round `k` fails, the result is
/// `TransferFailure { round: k }`: the rounds before `k` are done and written
/// back, nothing from round `k` on was changed, and no transfer after the
/// failed one was issued.
pub fn run_cores(
    pool: &mut BufferPool,
    source: &mut Vec<u8>,
    dma: &mut Dma,
    loc: SourceLocation,
    c: Cipher,
    key: &Vec<u8>,
    iv: &Vec<u8>,
) -> (r: Result<(), Error>)
    requires
        old(pool).wf(),
        old(source)@.len() <= KEYSTREAM_LIMIT,
        !(loc is L1),
        c.valid_key_iv(key@, iv@),
    ensures
        final(pool).wf(),
        final(pool).cores == old(pool).cores,
        final(pool).data@.len() == old(pool).data@.len(),
        final(dma).fault == old(dma).fault,
        old(source)@.len() == 0 ==> r is Ok && final(dma).log@ == old(dma).log@ && final(source)@ == old(source)@,
        r is Err <==> (old(dma).fault matches Some(f)
            && f.round < round_count_spec(old(source)@.len() as int, old(pool).half_len_spec())),
        r matches Err(e) ==> (old(dma).fault matches Some(f) && e == Error::TransferFailure { round: f.round }
            && final(source)@ == xor_range(c, key@, iv@, old(source)@, 0, f.round * old(pool).half_len_spec(), 0)
            && final(dma).log@ == old(dma).log@ + transfer_plan(old(source)@.len() as int, old(pool).half_len_spec(),
                plan_len_at_fault(f.dir, f.round as int))),
        r is Ok ==> final(source)@ == xor_keystream(c, key@, iv@, old(source)@, 0)
            && final(dma).log@ == old(dma).log@ + transfer_plan(old(source)@.len() as int, old(pool).half_len_spec(),
                2 * round_count_spec(old(source)@.len() as int, old(pool).half_len_spec())),
{
    let ghost orig = source@;
    let ghost len = source@.len() as int;
    let ghost work = pool.half_len_spec();
    let ghost log0 = dma.log@;
    proof {
        pool.lemma_geometry();
        if len > 0 {
            assert(round_count_spec(len, work) > 0) by (nonlinear_arith)
                requires len > 0, work > 0;
        } else {
            assert(round_count_spec(len, work) == 0) by (nonlinear_arith)
                requires len == 0, work > 0;
        }
        assert(source@ =~= xor_range(c, key@, iv@, orig, 0, 0, 0));
        assert(log0 + transfer_plan(len, work, 0) =~= log0);
    }
    let started = match loc {
        SourceLocation::Ram(device) => DmaPipeline::new_from_ram(source, pool, device, dma),
        _ => DmaPipeline::new_from_l2(source, pool, dma),
    };
    let mut pipe = match started {
        Err(e) => {
            return Err(e);
        },
        Ok(p) => p,
    };
    let rounds = round_count(pipe.len, pipe.work);
    while pipe.round < rounds
        invariant
            pipe.wf(),
            pipe.fits(pool),
            pool.cores == old(pool).cores,
            pool.data@.len() == old(pool).data@.len(),
            pipe.len == len,
            pipe.work == work,
            rounds == pipe.rounds(),
            rounds == round_count_spec(len, work),
            len == old(source)@.len(),
            work == old(pool).half_len_spec(),
            orig == old(source)@,
            log0 == old(dma).log@,
            source@.len() == len,
            pipe.holds_round(pool, source@),
            source@ == xor_range(c, key@, iv@, orig, 0, done_len(len, work, pipe.round as int), 0),
            dma.fault == old(dma).fault,
            dma.fault matches Some(f) ==> (f.round >= rounds || !fault_passed(f, pipe.round as int)),
            pipe.round < rounds ==> dma.log@ == log0 + transfer_plan(len, work, 2 * pipe.round + 1),
            pipe.round == rounds ==> dma.log@ == log0 + transfer_plan(len, work, 2 * rounds),
            c.valid_key_iv(key@, iv@),
        decreases rounds - pipe.round,
    {
        let ghost r = pipe.round as int;
        let ghost pool0 = pool.data@;
        let ghost rl = pipe.cur_len();
        let ghost base = pipe.active_start();
        let ghost cores = pipe.cores as int;
        let ghost pipe0 = pipe;
        proof {
            lemma_done_step(len, work, r);
            lemma_round_bounds(len, work, r);
            pipe.lemma_active_half(pool);
            lemma_core_ranges(rl, cores);
            assert(pool.data@ =~= xor_range(c, key@, iv@, pool0, base, base + core_lo_spec(rl, cores, 0), r * work));
        }
        let mut core: usize = 0;
        while core < pipe.cores
            invariant
                pipe.wf(),
                pipe.same_progress(&pipe0),
                pipe.len == len,
                pipe.work == work,
                pipe0.round < pipe0.rounds(),
                pipe.fits(pool),
                pool.cores == old(pool).cores,
                pool.data@.len() == pool0.len(),
                0 <= core <= cores,
                cores == pipe.cores,
                r == pipe.round,
                rl == pipe.cur_len(),
                base == pipe.active_start(),
                base + work <= pool0.len(),
                0 < rl <= work,
                r * work < len,
                r * work + rl <= len,
                len <= KEYSTREAM_LIMIT,
                pool.data@ == xor_range(c, key@, iv@, pool0, base, base + core_lo_spec(rl, cores, core as int), r * work),
                c.valid_key_iv(key@, iv@),
            decreases cores - core,
        {
            proof {
                lemma_core_ranges(rl, cores);
            }
            let (lo, hi) = pipe.get_work_buf(core);
            let pos = seek_position(pipe.len, pipe.work, pipe.cores, pipe.round, core);
            apply_keystream_range(c, key, iv, pos, &mut pool.data, lo, hi);
            proof {
                lemma_xor_range_extend(c, key@, iv@, pool0, base, lo as int, hi as int, r * work);
            }
            core = core + 1;
        }
        proof {
            assert(pool.data@ == xor_range(c, key@, iv@, pool0, base, base + rl, r * work));
            lemma_transfer_plan_push(len, work, r);
            lemma_transfer_plan_push(len, work, r + 1);
            assert((log0 + transfer_plan(len, work, 2 * r + 1)).push(pipe.out_transfer())
                =~= log0 + transfer_plan(len, work, 2 * r + 1).push(pipe.out_transfer()));
            assert((log0 + transfer_plan(len, work, 2 * r + 2)).push(pipe.in_transfer())
                =~= log0 + transfer_plan(len, work, 2 * r + 2).push(pipe.in_transfer()));
            assert(2 * (r + 1) + 1 == 2 * r + 3);
        }
        let ghost src0 = source@;
        let ghost fails_out = dma.fails(pipe.out_transfer());
        let res = pipe.advance(pool, source, dma);
        proof {
            if !fails_out {
                let expect = xor_range(c, key@, iv@, orig, 0, r * work + rl, 0);
                assert forall|i: int| 0 <= i < len implies #[trigger] source@[i] == expect[i] by {
                    if r * work <= i < r * work + rl {
                        assert(pool0.subrange(base, base + rl)[i - r * work] == src0.subrange(r * work, r * work + rl)[i - r * work]);
                    }
                }
                assert(source@ =~= expect);
            }
        }
        match res {
            Err(e) => {
                proof {
                    lemma_done_step(len, work, r);
                    if r + 1 < rounds {
                        lemma_done_step(len, work, r + 1);
                    }
                }
                return Err(e);
            },
            Ok(()) => {},
        }
    }
    pipe.flush();
    proof {
        lemma_done_all(len, work);
        assert(source@ =~= xor_keystream(c, key@, iv@, orig, 0));
    }
    Ok(())
}

} // verus!
