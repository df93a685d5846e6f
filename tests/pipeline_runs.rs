use pulp_cipher::cluster::{Cluster, PulpWrapper};
use pulp_cipher::error::Error;
use pulp_cipher::keystream::{encrypt_serial, encrypt_serial_orig, Cipher};
use pulp_cipher::pipeline::{Dma, PiClDmaDirE, PiDevice, SourceLocation, Transfer};

fn key_iv(cipher: Cipher) -> (Vec<u8>, Vec<u8>) {
    let key: Vec<u8> = (0..cipher.key_len()).map(|i| (i * 7 + 3) as u8).collect();
    let iv: Vec<u8> = (0..cipher.iv_len()).map(|i| (i * 13 + 1) as u8).collect();
    (key, iv)
}

fn plaintext(len: usize) -> Vec<u8> {
    (0..len).map(|i| (i * 31 + i / 7) as u8).collect()
}

fn wrapper(cores: usize, buf_len: usize) -> PulpWrapper {
    let cluster = Cluster::new(cores).unwrap();
    PulpWrapper::new(cluster, buf_len).unwrap()
}

const CIPHERS: [Cipher; 3] = [Cipher::ChaCha20Pulp, Cipher::ChaCha20, Cipher::Aes128Ctr];

#[test]
fn round_trip_every_cipher_and_tier() {
    for cipher in CIPHERS {
        for loc in [SourceLocation::L2, SourceLocation::Ram(PiDevice { handle: 7 })] {
            let (key, iv) = key_iv(cipher);
            let mut w = wrapper(4, 512);
            let p = plaintext(1000);
            let mut data = p.clone();
            w.run(&mut data, &key, &iv, loc, cipher).unwrap();
            assert_ne!(data, p);
            w.run(&mut data, &key, &iv, loc, cipher).unwrap();
            assert_eq!(data, p);
        }
    }
}

#[test]
fn parallel_matches_serial() {
    for cipher in CIPHERS {
        for cores in [1usize, 2, 4, 8] {
            for len in [1usize, 63, 64, 255, 256, 257, 1000, 4097] {
                let (key, iv) = key_iv(cipher);
                let mut w = wrapper(cores, 512);
                let p = plaintext(len);
                let mut parallel = p.clone();
                w.run(&mut parallel, &key, &iv, SourceLocation::L2, cipher).unwrap();
                let mut serial = p.clone();
                encrypt_serial(cipher, &mut serial, &key, &iv);
                assert_eq!(parallel, serial, "cipher {:?} cores {} len {}", cipher, cores, len);
            }
        }
    }
}

#[test]
fn chacha20_known_keystream() {
    // ChaCha20 with an all-zero key and nonce, block counter 0.
    let expected: [u8; 16] = [
        0x76, 0xb8, 0xe0, 0xad, 0xa0, 0xf1, 0x3d, 0x90, 0x40, 0x5d, 0x6a, 0xe5, 0x53, 0x86, 0xbd, 0x28,
    ];
    let key = vec![0u8; 32];
    let iv = vec![0u8; 12];
    let mut w = wrapper(4, 64);
    let mut data = vec![0u8; 16];
    w.run(&mut data, &key, &iv, SourceLocation::L2, Cipher::ChaCha20Pulp).unwrap();
    assert_eq!(data, expected.to_vec());
    let mut serial = vec![0u8; 16];
    encrypt_serial_orig(&mut serial, &key, &iv);
    assert_eq!(serial, expected.to_vec());
}

#[test]
fn aes128_ctr_known_keystream() {
    // AES-128 of the zero block under the zero key.
    let expected: [u8; 16] = [
        0x66, 0xe9, 0x4b, 0xd4, 0xef, 0x8a, 0x2c, 0x3b, 0x88, 0x4c, 0xfa, 0x59, 0xca, 0x34, 0x2b, 0x2e,
    ];
    let key = vec![0u8; 16];
    let iv = vec![0u8; 16];
    let mut w = wrapper(2, 64);
    let mut data = vec![0u8; 16];
    w.run(&mut data, &key, &iv, SourceLocation::L2, Cipher::Aes128Ctr).unwrap();
    assert_eq!(data, expected.to_vec());
}

#[test]
fn zero_length_needs_no_transfer() {
    let (key, iv) = key_iv(Cipher::ChaCha20);
    let mut w = wrapper(4, 512);
    let mut data: Vec<u8> = Vec::new();
    assert_eq!(w.run(&mut data, &key, &iv, SourceLocation::L2, Cipher::ChaCha20), Ok(()));
    assert!(data.is_empty());
    assert_eq!(w.cluster.dma().transfers(), 0);
}

#[test]
fn transfers_two_per_round() {
    let (key, iv) = key_iv(Cipher::ChaCha20);
    let mut w = wrapper(4, 512);
    let mut data = plaintext(1000);
    w.run(&mut data, &key, &iv, SourceLocation::L2, Cipher::ChaCha20).unwrap();
    assert_eq!(w.cluster.dma().transfers(), 8);
}

#[test]
fn fault_in_round_two_of_five_stops_there() {
    let cipher = Cipher::ChaCha20;
    let (key, iv) = key_iv(cipher);
    let cluster = Cluster::with_dma(4, Dma::with_fault(PiClDmaDirE::PI_CL_DMA_DIR_EXT2LOC, 2)).unwrap();
    let mut w = PulpWrapper::new(cluster, 512).unwrap();
    let work = w.full_work_buf_len();
    assert_eq!(work, 256);
    let p = plaintext(5 * work);
    let mut data = p.clone();
    let r = w.run(&mut data, &key, &iv, SourceLocation::Ram(PiDevice { handle: 1 }), cipher);
    assert_eq!(r, Err(Error::TransferFailure { round: 2 }));
    let mut serial = p.clone();
    encrypt_serial(cipher, &mut serial, &key, &iv);
    assert_eq!(&data[..2 * work], &serial[..2 * work]);
    assert_eq!(&data[2 * work..], &p[2 * work..]);
    // In and out for rounds 0 and 1, then the failed transfer in of round 2.
    assert_eq!(w.cluster.dma().transfers(), 5);
    assert_eq!(w.cluster.dma().log()[4], Transfer { dir: PiClDmaDirE::PI_CL_DMA_DIR_EXT2LOC, round: 2, offset: 512, len: 256 });
}

#[test]
fn failed_write_back_stops_the_run() {
    let cipher = Cipher::Aes128Ctr;
    let (key, iv) = key_iv(cipher);
    let cluster = Cluster::with_dma(4, Dma::with_fault(PiClDmaDirE::PI_CL_DMA_DIR_LOC2EXT, 1)).unwrap();
    let mut w = PulpWrapper::new(cluster, 512).unwrap();
    let p = plaintext(1000);
    let mut data = p.clone();
    let r = w.run(&mut data, &key, &iv, SourceLocation::L2, cipher);
    assert_eq!(r, Err(Error::TransferFailure { round: 1 }));
    let mut serial = p.clone();
    encrypt_serial(cipher, &mut serial, &key, &iv);
    assert_eq!(&data[..256], &serial[..256]);
    assert_eq!(&data[256..], &p[256..]);
    assert_eq!(w.cluster.dma().transfers(), 4);
    assert_eq!(w.cluster.dma().log()[3], Transfer { dir: PiClDmaDirE::PI_CL_DMA_DIR_LOC2EXT, round: 1, offset: 256, len: 256 });
}

#[test]
fn transfer_log_follows_the_rounds() {
    let (key, iv) = key_iv(Cipher::ChaCha20);
    let mut w = wrapper(4, 512);
    let used = w.cluster.l1.used;
    let mut data = plaintext(600);
    w.run(&mut data, &key, &iv, SourceLocation::L2, Cipher::ChaCha20).unwrap();
    let ext2loc = PiClDmaDirE::PI_CL_DMA_DIR_EXT2LOC;
    let loc2ext = PiClDmaDirE::PI_CL_DMA_DIR_LOC2EXT;
    let expected = vec![
        Transfer { dir: ext2loc, round: 0, offset: 0, len: 256 },
        Transfer { dir: loc2ext, round: 0, offset: 0, len: 256 },
        Transfer { dir: ext2loc, round: 1, offset: 256, len: 256 },
        Transfer { dir: loc2ext, round: 1, offset: 256, len: 256 },
        Transfer { dir: ext2loc, round: 2, offset: 512, len: 88 },
        Transfer { dir: loc2ext, round: 2, offset: 512, len: 88 },
    ];
    assert_eq!(w.cluster.dma().log(), &expected);
    assert_eq!(w.cluster.l1.used, used);
    assert_eq!(used, 512);
}

#[test]
fn fault_in_first_round() {
    let cipher = Cipher::Aes128Ctr;
    let (key, iv) = key_iv(cipher);
    let cluster = Cluster::with_dma(2, Dma::with_fault(PiClDmaDirE::PI_CL_DMA_DIR_EXT2LOC, 0)).unwrap();
    let mut w = PulpWrapper::new(cluster, 128).unwrap();
    let p = plaintext(300);
    let mut data = p.clone();
    assert_eq!(w.run(&mut data, &key, &iv, SourceLocation::L2, cipher), Err(Error::TransferFailure { round: 0 }));
    assert_eq!(data, p);
}

#[test]
fn fault_past_last_round_is_not_reached() {
    let cipher = Cipher::ChaCha20Pulp;
    let (key, iv) = key_iv(cipher);
    let cluster = Cluster::with_dma(2, Dma::with_fault(PiClDmaDirE::PI_CL_DMA_DIR_EXT2LOC, 4)).unwrap();
    let mut w = PulpWrapper::new(cluster, 128).unwrap();
    let p = plaintext(256);
    let mut data = p.clone();
    assert_eq!(w.run(&mut data, &key, &iv, SourceLocation::L2, cipher), Ok(()));
    let mut serial = p.clone();
    encrypt_serial(cipher, &mut serial, &key, &iv);
    assert_eq!(data, serial);
}

#[test]
fn wrapper_reused_across_runs() {
    let cipher = Cipher::ChaCha20;
    let (key, iv) = key_iv(cipher);
    let mut w = wrapper(8, 1024);
    for len in [10usize, 600, 2000] {
        let p = plaintext(len);
        let mut data = p.clone();
        w.run(&mut data, &key, &iv, SourceLocation::L2, cipher).unwrap();
        let mut serial = p.clone();
        encrypt_serial(cipher, &mut serial, &key, &iv);
        assert_eq!(data, serial);
    }
    let cluster = w.close();
    assert_eq!(cluster.l1.used, 0);
}

#[test]
fn cluster_rejects_bad_core_counts() {
    assert_eq!(Cluster::new(3).err(), Some(Error::ClusterUnavailable));
    assert_eq!(Cluster::new(0).err(), Some(Error::ClusterUnavailable));
    assert_eq!(Cluster::new(64).err(), Some(Error::ClusterUnavailable));
    assert_eq!(Cluster::new(8).unwrap().cores(), 8);
    assert_eq!(Cluster::new(32).unwrap().cores(), 32);
}

#[test]
fn wrapper_out_of_memory() {
    let cluster = Cluster::new(4).unwrap();
    assert_eq!(PulpWrapper::new(cluster, 65536 + 8).err(), Some(Error::OutOfMemory));
    let cluster = Cluster::new(4).unwrap();
    assert!(PulpWrapper::new(cluster, 65536).is_ok());
}
