use mesh_core::file_transfer::{FileTransferManager, TransferError, CHUNK_SIZE, MAX_FILE_SIZE};

#[test]
fn test_file_transfer_roundtrip() {
    let test_data = b"Hello, mesh file transfer! This is test content.".to_vec();
    let mut mgr = FileTransferManager::new("received".into());
    let dest = [2u8; 32];
    let metadata = mgr.prepare_send(dest, "test_send.txt", test_data.clone()).unwrap();
    assert_eq!(metadata.filename, "test_send.txt");
    assert_eq!(metadata.size_bytes, test_data.len() as u64);
    assert_eq!(metadata.chunk_count, 1);
    assert!(mgr.next_chunk(&metadata.file_id).is_none());
    mgr.mark_accepted(&metadata.file_id);
    let sender_id = [1u8; 32];
    let mut recv_mgr = FileTransferManager::new("received".into());
    recv_mgr.register_incoming(metadata.clone(), sender_id);
    recv_mgr.accept_incoming(&metadata.file_id);
    while let Some(chunk) = mgr.next_chunk(&metadata.file_id) {
        let pct = recv_mgr.receive_chunk(&metadata.file_id, chunk.sequence, chunk.data);
        assert!(pct.is_some());
    }
    assert!(mgr.is_outgoing_complete(&metadata.file_id));
    assert!(recv_mgr.is_incoming_complete(&metadata.file_id));
    let saved = recv_mgr.finalize_incoming(&metadata.file_id).unwrap();
    assert_eq!(saved.data, test_data);
    assert_eq!(saved.save_dir, "received");
}

#[test]
fn test_file_too_large() {
    let mut mgr = FileTransferManager::new("x".into());
    let result = mgr.prepare_send([2u8; 32], "big.bin", vec![0u8; MAX_FILE_SIZE as usize + 1]);
    assert_eq!(result.unwrap_err(), TransferError::TooLarge);
}

#[test]
fn empty_file_is_one_empty_chunk() {
    let mut mgr = FileTransferManager::new("x".into());
    let meta = mgr.prepare_send([2u8; 32], "empty", Vec::new()).unwrap();
    assert_eq!(meta.chunk_count, 1);
    assert_eq!(meta.size_bytes, 0);
    assert!(mgr.mark_accepted(&meta.file_id));
    let c = mgr.next_chunk(&meta.file_id).unwrap();
    assert_eq!(c.sequence, 0);
    assert!(c.data.is_empty());
    assert!(mgr.next_chunk(&meta.file_id).is_none());
}

fn two_chunk_transfer(flip: bool) -> Result<Vec<u8>, TransferError> {
    let data: Vec<u8> = (0..70_536u32).map(|i| (i % 251) as u8).collect();
    let mut tx = FileTransferManager::new("out".into());
    let meta = tx.prepare_send([2u8; 32], "blob", data.clone()).unwrap();
    assert_eq!(meta.chunk_count, 2);
    let mut rx = FileTransferManager::new("in".into());
    rx.register_incoming(meta.clone(), [1u8; 32]);
    assert!(rx.receive_chunk(&meta.file_id, 0, vec![1]).is_none());
    assert_eq!(rx.accept_incoming(&meta.file_id), Some([1u8; 32]));
    tx.mark_accepted(&meta.file_id);
    let c0 = tx.next_chunk(&meta.file_id).unwrap();
    let mut c1 = tx.next_chunk(&meta.file_id).unwrap();
    assert_eq!(c0.data.len(), CHUNK_SIZE);
    assert_eq!(c1.data.len(), 5_000);
    if flip {
        c1.data[100] ^= 0x01;
    }
    assert_eq!(rx.receive_chunk(&meta.file_id, c1.sequence, c1.data), Some(50));
    assert!(!rx.is_incoming_complete(&meta.file_id));
    assert_eq!(rx.receive_chunk(&meta.file_id, c0.sequence, c0.data), Some(100));
    assert!(rx.is_incoming_complete(&meta.file_id));
    let r = rx.finalize_incoming(&meta.file_id).map(|f| f.data);
    if let Ok(bytes) = &r {
        assert_eq!(bytes, &data);
    }
    r
}

#[test]
fn chunks_reassemble_in_sequence_order() {
    assert!(two_chunk_transfer(false).is_ok());
}

#[test]
fn flipped_bit_gives_hash_mismatch() {
    assert_eq!(two_chunk_transfer(true).unwrap_err(), TransferError::HashMismatch);
}

#[test]
fn missing_chunk_and_unknown_transfer() {
    let mut tx = FileTransferManager::new("out".into());
    let data = vec![3u8; CHUNK_SIZE * 2 + 1];
    let meta = tx.prepare_send([2u8; 32], "three", data).unwrap();
    assert_eq!(meta.chunk_count, 3);
    let mut rx = FileTransferManager::new("in".into());
    rx.register_incoming(meta.clone(), [1u8; 32]);
    rx.accept_incoming(&meta.file_id);
    assert_eq!(rx.receive_chunk(&meta.file_id, 0, vec![3u8; CHUNK_SIZE]), Some(33));
    assert_eq!(rx.receive_chunk(&meta.file_id, 2, vec![3u8]), Some(66));
    assert_eq!(rx.receive_chunk(&meta.file_id, 7, vec![3u8]), Some(100));
    assert!(rx.is_incoming_complete(&meta.file_id));
    assert_eq!(rx.finalize_incoming(&meta.file_id).unwrap_err(), TransferError::MissingChunk(1));
    assert_eq!(rx.finalize_incoming(&meta.file_id).unwrap_err(), TransferError::NotFound);
    assert!(rx.get_incoming_metadata(&meta.file_id).is_none());
}

#[test]
fn outgoing_bookkeeping() {
    let mut tx = FileTransferManager::new("out".into());
    let meta = tx.prepare_send([9u8; 32], "f", vec![1, 2, 3]).unwrap();
    assert_eq!(tx.outgoing_dest(&meta.file_id), Some([9u8; 32]));
    assert!(!tx.is_outgoing_complete(&meta.file_id));
    assert!(!tx.mark_accepted(&[0u8; 16]));
    tx.remove_outgoing(&meta.file_id);
    assert_eq!(tx.outgoing_dest(&meta.file_id), None);
    assert!(tx.is_outgoing_complete(&meta.file_id));
}
