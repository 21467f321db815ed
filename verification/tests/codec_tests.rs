use jamliquor::schema::{Block, EpochMark, Extrinsic, Header, OpaqueHash, Preimage, TicketBody,
    TicketEnvelope};

fn sample_block() -> Block {
    Block {
        header: Header {
            parent: OpaqueHash::new([0x11u8; 32]),
            parent_state_root: OpaqueHash::new([0x22u8; 32]),
            extrinsic_hash: OpaqueHash::new([0x33u8; 32]),
            slot: 7,
            epoch_mark: None,
            tickets_mark: Some(vec![TicketBody {
                id: OpaqueHash::new([0x44u8; 32]),
                attempt: 2,
            }]),
            offenders_mark: vec![OpaqueHash::new([0x55u8; 32])],
            author_index: 3,
            entropy_source: vec![9u8; 96],
            seal: vec![8u8; 4],
        },
        extrinsic: Extrinsic {
            tickets: vec![TicketEnvelope {
                attempt: 2,
                signature: vec![6u8; 64],
            }],
            preimages: vec![Preimage {
                requester: 5,
                blob: vec![1, 2, 3],
            }],
            guarantees: vec![b"{}".to_vec()],
            assurances: vec![],
            disputes: None,
        },
    }
}

#[test]
fn compute_hash_is_the_blake2b_digest_of_the_canonical_bytes() {
    let block = sample_block();
    let bytes = block
        .extrinsic
        .canonical_bytes()
        .expect("the sample extrinsic is encodable");
    let digest = block
        .extrinsic
        .compute_hash()
        .expect("the sample extrinsic is hashable");

    // Recompute the digest independently: this fails if the hash did not
    // come from Blake2b-256 over exactly the canonical bytes.
    let expected = blake2b_simd::Params::new()
        .hash_length(32)
        .to_state()
        .update(&bytes)
        .finalize();
    assert_eq!(&digest[..], expected.as_bytes());
    assert_ne!(&digest[..], &bytes[..bytes.len().min(32)]);
}

#[test]
fn compute_hash_is_deterministic_and_field_sensitive() {
    let block = sample_block();
    let again = sample_block();
    assert_eq!(block.extrinsic.compute_hash(), again.extrinsic.compute_hash());

    let mut changed = sample_block();
    changed.extrinsic.preimages[0].blob = vec![1, 2, 4];
    assert_ne!(
        block.extrinsic.compute_hash(),
        changed.extrinsic.compute_hash(),
        "a changed field changes the commitment"
    );
}

#[test]
fn block_round_trips_through_canonical_bytes() {
    let mut block = sample_block();
    block.header.epoch_mark = Some(EpochMark {
        entropy: OpaqueHash::new([0x66u8; 32]),
        tickets_entropy: OpaqueHash::new([0x77u8; 32]),
        validators: vec![OpaqueHash::new([0x88u8; 32]), OpaqueHash::new([0x99u8; 32])],
    });
    block.extrinsic.disputes = Some(b"null".to_vec());

    let bytes = block.canonical_bytes().expect("the sample block is encodable");
    let decoded = Block::from_canonical_bytes(&bytes)
        .expect("the canonical bytes decode back");

    // Field-for-field equality, hash and byte-array fields included.
    assert_eq!(decoded.header.parent.as_bytes(), block.header.parent.as_bytes());
    assert_eq!(
        decoded.header.parent_state_root.as_bytes(),
        block.header.parent_state_root.as_bytes()
    );
    assert_eq!(
        decoded.header.extrinsic_hash.as_bytes(),
        block.header.extrinsic_hash.as_bytes()
    );
    assert_eq!(decoded.header.slot, block.header.slot);
    let dem = decoded.header.epoch_mark.as_ref().expect("epoch mark survives");
    let bem = block.header.epoch_mark.as_ref().unwrap();
    assert_eq!(dem.entropy.as_bytes(), bem.entropy.as_bytes());
    assert_eq!(dem.tickets_entropy.as_bytes(), bem.tickets_entropy.as_bytes());
    assert_eq!(dem.validators.len(), 2);
    assert_eq!(dem.validators[0].as_bytes(), bem.validators[0].as_bytes());
    assert_eq!(dem.validators[1].as_bytes(), bem.validators[1].as_bytes());
    let dtm = decoded.header.tickets_mark.as_ref().expect("tickets mark survives");
    let btm = block.header.tickets_mark.as_ref().unwrap();
    assert_eq!(dtm.len(), btm.len());
    assert_eq!(dtm[0].id.as_bytes(), btm[0].id.as_bytes());
    assert_eq!(dtm[0].attempt, btm[0].attempt);
    assert_eq!(decoded.header.offenders_mark.len(), 1);
    assert_eq!(
        decoded.header.offenders_mark[0].as_bytes(),
        block.header.offenders_mark[0].as_bytes()
    );
    assert_eq!(decoded.header.author_index, block.header.author_index);
    assert_eq!(decoded.header.entropy_source, block.header.entropy_source);
    assert_eq!(decoded.header.seal, block.header.seal);
    assert_eq!(decoded.extrinsic.tickets.len(), 1);
    assert_eq!(decoded.extrinsic.tickets[0].attempt, block.extrinsic.tickets[0].attempt);
    assert_eq!(decoded.extrinsic.tickets[0].signature, block.extrinsic.tickets[0].signature);
    assert_eq!(decoded.extrinsic.preimages.len(), 1);
    assert_eq!(decoded.extrinsic.preimages[0].requester, 5);
    assert_eq!(decoded.extrinsic.preimages[0].blob, block.extrinsic.preimages[0].blob);
    assert_eq!(decoded.extrinsic.guarantees, block.extrinsic.guarantees);
    assert_eq!(decoded.extrinsic.assurances, block.extrinsic.assurances);
    assert_eq!(decoded.extrinsic.disputes, block.extrinsic.disputes);

    // Trailing bytes are rejected.
    let mut padded = bytes.clone();
    padded.push(0);
    assert!(Block::from_canonical_bytes(&padded).is_none());
    // Truncated bytes are rejected.
    assert!(Block::from_canonical_bytes(&bytes[..bytes.len() - 1]).is_none());
}

#[test]
fn canonical_block_bytes_cover_the_header() {
    let block = sample_block();
    let full = block.canonical_bytes().expect("the sample block is encodable");
    let extrinsic_only = block
        .extrinsic
        .canonical_bytes()
        .expect("the sample extrinsic is encodable");
    assert!(full.len() > extrinsic_only.len());
    assert_eq!(
        &full[full.len() - extrinsic_only.len()..],
        &extrinsic_only[..],
        "the block encoding ends with the extrinsic encoding"
    );
    assert_eq!(&full[..32], &[0x11u8; 32], "the encoding starts with the parent hash");
}
