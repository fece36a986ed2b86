//! Frames on many generated values.

use libp2p_cat::error::Error;
use libp2p_cat::pubsub::{
    decode, encode, KeyedHashAuthenticator, KeyedHashCommitment, KeyedHashTag, NullAuthenticator,
    Topic, WirePiece,
};
use libp2p_cat::rlnc::CodedPiece;

/// A xorshift generator.
struct Gen(u64);

impl Gen {
    fn next(&mut self) -> u64 {
        self.0 ^= self.0 << 13;
        self.0 ^= self.0 >> 7;
        self.0 ^= self.0 << 17;
        self.0
    }

    fn below(&mut self, n: u64) -> u64 {
        self.next() % n
    }

    fn bytes(&mut self, n: usize) -> Vec<u8> {
        (0..n).map(|_| (self.next() >> 24) as u8).collect()
    }

    fn array(&mut self) -> [u8; 32] {
        core::array::from_fn(|_| (self.next() >> 24) as u8)
    }

    /// 1 to 32 printable characters.
    fn topic(&mut self) -> Result<Topic, Error> {
        let n = 1 + self.below(32);
        let name: String = (0..n)
            .map(|_| char::from(0x21 + self.below(0x5e) as u8))
            .collect();
        Topic::try_from(name)
    }
}

#[test]
fn null_frames_round_trip() -> Result<(), Error> {
    let mut gen = Gen(1);
    for _ in 0..256 {
        let topic = gen.topic()?;
        let k = 1 + gen.below(8) as usize;
        let b = 1 + gen.below(32) as usize;
        let (cv, data) = (gen.bytes(k), gen.bytes(b));
        let piece = CodedPiece { coding_vector: cv.clone(), data: data.clone() };
        let wp: WirePiece<NullAuthenticator> = WirePiece::new((), piece, ());
        let bytes = encode::<NullAuthenticator>(&topic, k, b, &wp)?;
        let (frame, parsed) = decode::<NullAuthenticator>(&bytes)?;
        assert_eq!(frame.topic, topic);
        assert_eq!(frame.piece_count, k as u32);
        assert_eq!(frame.piece_byte_len, b as u32);
        assert_eq!(parsed.piece().coding_vector, cv);
        assert_eq!(parsed.piece().data, data);
    }
    Ok(())
}

#[test]
fn keyed_frames_round_trip() -> Result<(), Error> {
    let mut gen = Gen(2);
    for _ in 0..256 {
        let topic = gen.topic()?;
        let k = 1 + gen.below(8) as usize;
        let b = 1 + gen.below(32) as usize;
        let piece = CodedPiece { coding_vector: gen.bytes(k), data: gen.bytes(b) };
        let (commitment, tag) = (gen.array(), gen.array());
        let wp: WirePiece<KeyedHashAuthenticator> = WirePiece::new(
            KeyedHashCommitment::from_bytes(commitment),
            piece,
            KeyedHashTag::from_bytes(tag),
        );
        let bytes = encode(&topic, k, b, &wp)?;
        let (_, parsed) = decode::<KeyedHashAuthenticator>(&bytes)?;
        assert_eq!(parsed.commitment().as_bytes(), &commitment);
        assert_eq!(parsed.tag().as_bytes(), &tag);
        assert_eq!(parsed.piece(), wp.piece());
    }
    Ok(())
}

#[test]
fn decode_never_panics_on_arbitrary_bytes() {
    let mut gen = Gen(3);
    for _ in 0..512 {
        let n = gen.below(1024) as usize;
        let bytes = gen.bytes(n);
        assert!(matches!(
            decode::<NullAuthenticator>(&bytes),
            Ok(_) | Err(Error::PubsubProtocol { .. } | Error::RlncLayer { .. })
        ));
    }
}
