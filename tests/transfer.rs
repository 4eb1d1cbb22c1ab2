use tftp::transfer::{
    ack_in_reply, ReplyError, apply_gbn, check_oack_reply, check_request, negotiate, retry_after_timeout, Step, Transfer,
    TransferError,
};
use tftp::{DecodeError, TftpPacket};

fn opts(pairs: &[(&str, &str)]) -> Vec<(String, String)> {
    pairs.iter().map(|(k, v)| (k.to_string(), v.to_string())).collect()
}

/// A file served from memory, with the cursor the engine moves.
struct Server {
    file: Vec<u8>,
    cursor: usize,
    t: Transfer,
}

impl Server {
    fn new(file: Vec<u8>, blksize: u16, windowsize: u16, max_retries: u8) -> Server {
        Server { file, cursor: 0, t: Transfer::new(blksize, windowsize, false, max_retries) }
    }

    /// One emit phase: the DATA packets sent, as decoded from their bytes.
    fn emit(&mut self) -> Vec<(u16, Vec<u8>)> {
        let mut sent = Vec::new();
        while let Some(block) = self.t.next_block() {
            let n = std::cmp::min(self.t.blksize as usize, self.file.len() - self.cursor);
            let data = self.file[self.cursor..self.cursor + n].to_vec();
            self.cursor += n;
            let bytes = TftpPacket::DATA { block, data }.serialize();
            match TftpPacket::deserialize(&bytes).unwrap() {
                TftpPacket::DATA { block, data } => sent.push((block, data)),
                other => panic!("not a DATA packet: {:?}", other),
            }
            if !self.t.record_read(n) {
                break;
            }
        }
        sent
    }

    fn perform(&mut self, step: Step) -> Step {
        if let Step::Resume { seek } = step {
            self.cursor = (self.cursor as i64 + seek) as usize;
        }
        step
    }

    fn ack(&mut self, block: u16) -> Step {
        let bytes = TftpPacket::ACK(block).serialize();
        let block = match TftpPacket::deserialize(&bytes).unwrap() {
            TftpPacket::ACK(b) => b,
            other => panic!("not an ACK: {:?}", other),
        };
        let step = self.t.on_ack(block);
        self.perform(step)
    }

    fn timeout(&mut self) -> Step {
        let step = self.t.on_timeout();
        self.perform(step)
    }
}

fn pattern(len: usize) -> Vec<u8> {
    (0..len).map(|i| (i % 251) as u8).collect()
}

#[test]
fn small_file_no_options() {
    let file = pattern(100);
    let neg = negotiate(&vec![], 100).unwrap();
    assert!(neg.oack.is_empty());
    assert_eq!((neg.blksize, neg.windowsize), (512, 1));
    let mut s = Server::new(file.clone(), neg.blksize, neg.windowsize, 3);
    let sent = s.emit();
    assert_eq!(sent, vec![(1, file)]);
    assert_eq!(s.ack(1), Step::Complete);
}

#[test]
fn exact_multiple_file_default_blksize() {
    let file = pattern(1024);
    let mut s = Server::new(file.clone(), 512, 1, 3);
    assert_eq!(s.emit(), vec![(1, file[..512].to_vec())]);
    assert_eq!(s.ack(1), Step::Resume { seek: 0 });
    assert_eq!(s.emit(), vec![(2, file[512..].to_vec())]);
    assert_eq!(s.ack(2), Step::Resume { seek: 0 });
    assert_eq!(s.emit(), vec![(3, vec![])]);
    assert_eq!(s.ack(3), Step::Complete);
}

#[test]
fn negotiated_blksize() {
    let neg = negotiate(&opts(&[("blksize", "1468")]), 5000).unwrap();
    assert_eq!(neg.oack, opts(&[("blksize", "1468")]));
    assert_eq!(neg.blksize, 1468);
    let oack = TftpPacket::OACK(neg.oack.clone()).serialize();
    assert_eq!(oack, b"\x00\x06blksize\x001468\x00".to_vec());
    assert_eq!(check_oack_reply(0), Ok(()));
    let file = pattern(5000);
    let mut s = Server::new(file.clone(), neg.blksize, neg.windowsize, 3);
    assert_eq!(s.emit(), vec![(1, file[..1468].to_vec())]);
    assert_eq!(s.ack(1), Step::Resume { seek: 0 });
    assert_eq!(s.emit(), vec![(2, file[1468..2936].to_vec())]);
}

#[test]
fn negotiated_blksize_clamped() {
    let neg = negotiate(&opts(&[("blksize", "70000")]), 0).unwrap();
    assert_eq!(neg.oack, opts(&[("blksize", "65464")]));
    assert_eq!(neg.blksize, 65464);
    let neg = negotiate(&opts(&[("blksize", "2")]), 0).unwrap();
    assert_eq!(neg.oack, opts(&[("blksize", "8")]));
    assert_eq!(neg.blksize, 8);
}

#[test]
fn timeout_and_retransmit() {
    let file = pattern(100);
    let mut s = Server::new(file.clone(), 512, 1, 3);
    assert_eq!(s.emit(), vec![(1, file.clone())]);
    assert_eq!(s.timeout(), Step::Resume { seek: -100 });
    assert_eq!(s.emit(), vec![(1, file.clone())]);
    assert_eq!(s.timeout(), Step::Resume { seek: -100 });
    assert_eq!(s.emit(), vec![(1, file.clone())]);
    assert_eq!(s.timeout(), Step::GiveUp);
}

#[test]
fn ack_resets_timeout_count() {
    let file = pattern(2000);
    let mut s = Server::new(file.clone(), 512, 1, 2);
    s.emit();
    assert_eq!(s.timeout(), Step::Resume { seek: -512 });
    assert_eq!(s.t.retries, 1);
    s.emit();
    assert_eq!(s.ack(1), Step::Resume { seek: 0 });
    assert_eq!(s.t.retries, 0);
    assert_eq!(s.emit(), vec![(2, file[512..1024].to_vec())]);
    assert_eq!(s.timeout(), Step::Resume { seek: -512 });
    assert_eq!(s.emit(), vec![(2, file[512..1024].to_vec())]);
    assert_eq!(s.timeout(), Step::GiveUp);
}

#[test]
fn window_wrap() {
    let blksize: u16 = 8;
    let file = pattern((65536 + 9) * blksize as usize + 3);
    let mut s = Server::new(file.clone(), blksize, 4, 3);
    let mut received: Vec<u8> = Vec::new();
    let mut have: usize = 0;
    let mut sent_any_zero = false;
    let mut first = true;
    loop {
        let sent = s.emit();
        // The client keeps the blocks that follow on from what it has.
        let mut kept = received.clone();
        let mut kept_blocks = have;
        for (block, data) in &sent {
            if *block == ((kept_blocks + 1) % 65536) as u16 {
                kept.extend_from_slice(data);
                kept_blocks += 1;
            }
        }
        if sent.iter().map(|(b, _)| *b).collect::<Vec<u16>>() == vec![65534, 65535, 0, 1] {
            // Acknowledge only up to block 0: the window moves on to start at 1.
            sent_any_zero = true;
            have = 65536;
            received = kept[..(have * blksize as usize)].to_vec();
            assert_eq!(s.ack(0), Step::Resume { seek: -(blksize as i64) });
            assert_eq!(s.t.window.start, 1);
            continue;
        }
        if first {
            // Acknowledge block 1 only, so later windows start at 2, 6, ...
            first = false;
            have = 1;
            received = kept[..blksize as usize].to_vec();
        } else {
            have = kept_blocks;
            received = kept;
        }
        match s.ack((have % 65536) as u16) {
            Step::Complete => break,
            Step::Resume { .. } => {}
            Step::GiveUp => panic!("gave up"),
        }
    }
    assert!(sent_any_zero);
    assert!(received == file);
}

#[test]
fn rewind_seeks_back_over_window() {
    let file = pattern(4096);
    let mut s = Server::new(file, 512, 4, 3);
    assert_eq!(s.emit().len(), 4);
    assert_eq!(s.cursor, 2048);
    assert_eq!(s.ack(0), Step::Resume { seek: -(512 * 3 + 512) });
    assert_eq!(s.cursor, 0);
    assert_eq!(s.t.window.next_send, 1);
}

#[test]
fn slide_backs_up_two_blocks() {
    let file = pattern(4096);
    let mut s = Server::new(file.clone(), 512, 4, 3);
    s.emit();
    assert_eq!(s.ack(2), Step::Resume { seek: -1024 });
    assert_eq!(s.t.window.start, 3);
    assert_eq!(s.t.window.next_send, 3);
    let sent = s.emit();
    let blocks: Vec<u16> = sent.iter().map(|(b, _)| *b).collect();
    assert_eq!(blocks, vec![3, 4, 5, 6]);
    assert_eq!(sent[0].1, file[1024..1536].to_vec());
}

#[test]
fn rewind_over_short_last_block() {
    let file = pattern(512 * 2 + 100);
    let mut s = Server::new(file.clone(), 512, 4, 3);
    assert_eq!(s.emit().len(), 3);
    assert!(s.t.finish);
    assert_eq!(s.ack(0), Step::Resume { seek: -(512 * 2 + 100) });
    assert!(!s.t.finish);
    assert_eq!(s.cursor, 0);
}

#[test]
fn windowsize_and_tsize_echoed() {
    let neg = negotiate(&opts(&[("tsize", "0"), ("windowsize", "8"), ("foo", "bar")]), 12345).unwrap();
    assert_eq!(neg.windowsize, 8);
    assert_eq!(neg.blksize, 512);
    assert_eq!(neg.oack, opts(&[("windowsize", "8"), ("tsize", "12345")]));
}

#[test]
fn last_repeated_option_wins() {
    let neg = negotiate(&opts(&[("blksize", "1000"), ("blksize", "+2000")]), 0).unwrap();
    assert_eq!(neg.blksize, 2000);
    assert_eq!(neg.oack, opts(&[("blksize", "2000")]));
}

#[test]
fn bad_option_values() {
    assert_eq!(negotiate(&opts(&[("blksize", "big")]), 0), Err(TransferError::BadOptionValue));
    assert_eq!(negotiate(&opts(&[("blksize", "-5")]), 0), Err(TransferError::BadOptionValue));
    assert_eq!(negotiate(&opts(&[("windowsize", "0")]), 0), Err(TransferError::BadOptionValue));
    assert_eq!(negotiate(&opts(&[("windowsize", "65536")]), 0), Err(TransferError::BadOptionValue));
    assert_eq!(negotiate(&opts(&[("windowsize", "")]), 0), Err(TransferError::BadOptionValue));
    assert!(negotiate(&opts(&[("unknown", "x")]), 0).unwrap().oack.is_empty());
}

#[test]
fn oack_reply_must_be_block_zero() {
    assert_eq!(check_oack_reply(3), Err(TransferError::UnexpectedBlock(3)));
}

#[test]
fn gbn_widens_window_of_one() {
    assert_eq!(apply_gbn(1, true), (4, true));
    assert_eq!(apply_gbn(1, false), (1, false));
    assert_eq!(apply_gbn(8, true), (8, false));
}

#[test]
fn retry_counting() {
    assert_eq!(retry_after_timeout(0, 3), Some(1));
    assert_eq!(retry_after_timeout(1, 3), Some(2));
    assert_eq!(retry_after_timeout(2, 3), None);
    assert_eq!(retry_after_timeout(0, 0), None);
    assert_eq!(retry_after_timeout(254, 255), None);
}

#[test]
fn request_checks() {
    let f = |s: &str| s.to_string();
    assert_eq!(check_request(&f("dir/sub/file.txt"), &f("octet")), Ok(f("file.txt")));
    assert_eq!(check_request(&f("../../etc/passwd"), &f("octet")), Ok(f("passwd")));
    assert_eq!(check_request(&f("file.txt"), &f("netascii")), Err(TransferError::UnsupportedMode));
    assert_eq!(check_request(&f("file.txt"), &f("OCTET")), Err(TransferError::UnsupportedMode));
    assert_eq!(check_request(&f(".."), &f("octet")), Err(TransferError::BadFilename));
    assert_eq!(check_request(&f(""), &f("octet")), Err(TransferError::BadFilename));
}

#[test]
fn replies_while_waiting() {
    assert_eq!(ack_in_reply(&TftpPacket::ACK(7).serialize()), Ok(7));
    let err = TftpPacket::ERROR { code: 2, msg: "denied".to_string() }.serialize();
    assert_eq!(
        ack_in_reply(&err),
        Err(ReplyError::Remote { code: 2, msg: "denied".to_string() })
    );
    let data = TftpPacket::DATA { block: 1, data: vec![1] }.serialize();
    assert_eq!(ack_in_reply(&data), Err(ReplyError::NotAck));
    assert_eq!(ack_in_reply(&[0, 4]), Err(ReplyError::Malformed(DecodeError::TooShort)));
}
