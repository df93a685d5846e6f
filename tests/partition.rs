use pulp_cipher::cluster::parse_cores_u8;
use pulp_cipher::geometry::{
    core_range, core_share, full_rounds, is_power_of_two, round_count, round_len, seek_position,
};
use pulp_cipher::memory::{ClusterAllocator, GlobalAllocator, L1Heap, L2Allocator};
use pulp_cipher::error::Error;
use pulp_cipher::pipeline::{Dma, DmaPipeline, PipelineState};
use pulp_cipher::cluster::Cluster;
use pulp_cipher::pool::BufferPool;

#[test]
fn scenario_four_cores_256_byte_rounds() {
    let (len, work, cores) = (1000usize, 256usize, 4usize);
    assert_eq!(full_rounds(len, work), 3);
    assert_eq!(round_count(len, work), 4);
    assert_eq!(round_len(len, work, 2), 256);
    assert_eq!(round_len(len, work, 3), 232);
    assert_eq!(seek_position(len, work, cores, 0, 2), 128);
    assert_eq!(seek_position(len, work, cores, 1, 2), 128 + 256);
    assert_eq!(seek_position(len, work, cores, 2, 2), 128 + 512);
    // Partial round: 232 bytes, 58 per core; core 2 starts 116 bytes in.
    assert_eq!(core_share(232, cores), 58);
    assert_eq!(seek_position(len, work, cores, 3, 2), 768 + 116);
}

#[test]
fn core_ranges_partition_a_round() {
    for cores in [1usize, 2, 4, 8, 32] {
        for n in [0usize, 1, 3, 7, 64, 232, 256, 1000] {
            let mut next = 0usize;
            for c in 0..cores {
                let (lo, hi) = core_range(n, cores, c);
                assert_eq!(lo, next);
                assert!(lo <= hi && hi <= n);
                next = hi;
            }
            assert_eq!(next, n);
        }
    }
}

#[test]
fn exact_multiple_has_no_partial_round() {
    assert_eq!(round_count(1024, 256), 4);
    assert_eq!(full_rounds(1024, 256), 4);
    for r in 0..4 {
        assert_eq!(round_len(1024, 256, r), 256);
    }
}

#[test]
fn one_byte_over_is_one_byte_in_all() {
    assert_eq!(round_count(1025, 256), 5);
    assert_eq!(round_len(1025, 256, 4), 1);
    let total: usize = (0..4).map(|c| {
        let (lo, hi) = core_range(1, 4, c);
        hi - lo
    }).sum();
    assert_eq!(total, 1);
    assert_eq!(core_range(1, 4, 0), (0, 1));
    assert_eq!(core_range(1, 4, 3), (1, 1));
}

#[test]
fn parse_core_counts() {
    assert_eq!(parse_cores_u8("4"), Some(4));
    assert_eq!(parse_cores_u8("8"), Some(8));
    assert_eq!(parse_cores_u8("1"), Some(1));
    assert_eq!(parse_cores_u8("3"), None);
    assert_eq!(parse_cores_u8("0"), None);
    assert_eq!(parse_cores_u8(""), None);
    assert_eq!(parse_cores_u8("P"), Some(32));
    assert_eq!(parse_cores_u8("@"), Some(16));
    assert_eq!(parse_cores_u8("A"), None);
    assert_eq!(parse_cores_u8("/"), None);
    assert_eq!(parse_cores_u8("16"), Some(1));
    assert_eq!(parse_cores_u8("2x"), Some(2));
}

#[test]
fn powers_of_two() {
    assert!(is_power_of_two(1));
    assert!(is_power_of_two(64));
    assert!(!is_power_of_two(0));
    assert!(!is_power_of_two(12));
}

#[test]
fn allocators() {
    let mut heap = L1Heap::new();
    assert_eq!(heap.capacity, 65536);
    let a = ClusterAllocator::new();
    let b = ClusterAllocator::new();
    let v = a.allocate(&mut heap, 1000, 4).unwrap();
    assert_eq!(v, vec![0u8; 1000]);
    assert_eq!(heap.used, 1000);
    assert_eq!(a.allocate(&mut heap, 65536, 4).err(), Some(Error::OutOfMemory));
    assert_eq!(a.allocate(&mut heap, 8, 8).err(), Some(Error::OutOfMemory));
    b.deallocate(&mut heap, v);
    assert_eq!(heap.used, 0);
    let cluster = Cluster::new(4).unwrap();
    let _handle = cluster.l1_allocator();
    assert_eq!(L2Allocator.allocate(16, 8).err(), Some(Error::OutOfMemory));
    assert_eq!(L2Allocator.allocate(16, 4).unwrap().len(), 16);
    assert!(GlobalAllocator.allocate(16, 4).is_none());
}

#[test]
fn pool_halves_and_slices() {
    let mut heap = L1Heap::new();
    let pool = BufferPool::allocate(&mut heap, 512, 4).unwrap();
    assert_eq!(pool.full_work_buf_len(), 256);
    assert_eq!(pool.half(0), (0, 256));
    assert_eq!(pool.half(1), (256, 512));
    assert_eq!(pool.core_slice(0, 0), (0, 64));
    assert_eq!(pool.core_slice(1, 3), (448, 512));
    let mut small = L1Heap::new();
    small.used = 65000;
    assert_eq!(BufferPool::allocate(&mut small, 1024, 4).err(), Some(Error::OutOfMemory));
}

#[test]
fn pipeline_states_and_work_buffers() {
    let mut heap = L1Heap::new();
    let mut pool = BufferPool::allocate(&mut heap, 512, 4).unwrap();
    let mut dma = Dma::new();
    let mut source: Vec<u8> = (0..600).map(|i| i as u8).collect();
    let mut p = DmaPipeline::new_from_l2(&source, &mut pool, &mut dma).unwrap();
    assert_eq!(p.state, PipelineState::Priming);
    assert_eq!(dma.transfers(), 1);
    assert_eq!(&pool.data[..256], &source[..256]);
    assert_eq!(p.get_work_buf(1), (64, 128));
    assert_eq!(p.state, PipelineState::Steady);
    p.advance(&mut pool, &mut source, &mut dma).unwrap();
    assert_eq!((p.round, p.active), (1, 1));
    assert_eq!(&pool.data[256..512], &source[256..512]);
    assert_eq!(p.get_work_buf(0), (256, 320));
    p.advance(&mut pool, &mut source, &mut dma).unwrap();
    assert_eq!(p.state, PipelineState::Draining);
    // Last round: 88 bytes, 22 per core, back in half 0.
    assert_eq!(p.get_work_buf(3), (66, 88));
    p.advance(&mut pool, &mut source, &mut dma).unwrap();
    p.flush();
    assert_eq!(p.state, PipelineState::Done);
    p.flush();
    assert_eq!(p.state, PipelineState::Done);
    assert_eq!(dma.transfers(), 6);
    let expected: Vec<u8> = (0..600).map(|i| i as u8).collect();
    assert_eq!(source, expected);
}
