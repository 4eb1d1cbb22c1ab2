//! The decisions of one read transfer: checking the request, negotiating
//! options, and reacting to acknowledgements and timeouts.
//!
//! The caller owns the socket, the file and the clock. It hands each event
//! to a [`Transfer`] and performs the step it returns.
use vstd::prelude::*;

use crate::packet::{decode, options_view, DecodeError, OptionList, PacketView, TftpPacket};
use crate::window::{block_add, block_diff, Window};
use crate::{DEF_BLOCK_SIZE, DEF_WINDOW_SIZE, MAX_BLOCK_SIZE, MIN_BLOCK_SIZE};

verus! {

/// Why a transfer stops before its last block is acknowledged.
#[derive(Debug, Clone, Copy, PartialEq, Eq, Structural)]
pub enum TransferError {
    /// The request's mode is not `octet`.
    UnsupportedMode,
    /// The requested name has no final component that is text.
    BadFilename,
    /// A `blksize` or `windowsize` value that is not a usable integer.
    BadOptionValue,
    /// The client answered the option acknowledgement with a block other than 0.
    UnexpectedBlock(u16),
}

/// Why a datagram received while waiting for an acknowledgement is none.
#[derive(Debug, Clone, PartialEq, Eq)]
pub enum ReplyError {
    /// The bytes are no packet.
    Malformed(DecodeError),
    /// The client sent an ERROR packet.
    Remote { code: u16, msg: String },
    /// A packet other than ACK or ERROR.
    NotAck,
}

/// The characters of a decimal digit.
pub open spec fn digit_char(d: nat) -> char {
    ((d + 48) as u8) as char
}

/// `n` in decimal, without leading zeros.
pub open spec fn decimal_digits(n: nat) -> Seq<char>
    decreases n,
{
    if n < 10 {
        seq![digit_char(n)]
    } else {
        decimal_digits(n / 10).push(digit_char(n % 10))
    }
}

/// Whether every character of `s` is an ASCII digit.
pub open spec fn all_digits(s: Seq<char>) -> bool {
    forall|i: int| 0 <= i < s.len() ==> '0' <= #[trigger] s[i] <= '9'
}

/// The number that the ASCII digits `s` write in decimal.
pub open spec fn digits_value(s: Seq<char>) -> nat
    decreases s.len(),
{
    if s.len() == 0 {
        0
    } else {
        digits_value(s.drop_last()) * 10 + (s.last() as nat - '0' as nat) as nat
    }
}

/// The unsigned 64-bit integer that `s` writes: an optional `+`, then one or
/// more decimal digits, with a value that fits.
pub open spec fn decimal_value(s: Seq<char>) -> Option<u64> {
    let d = if s.len() > 0 && s[0] == '+' {
        s.drop_first()
    } else {
        s
    };
    if d.len() > 0 && all_digits(d) && digits_value(d) <= u64::MAX {
        Some(digits_value(d) as u64)
    } else {
        None
    }
}

/// Relies on `u64`'s `FromStr`: an optional `+` and decimal digits whose value
/// fits, nothing else.
#[verifier::external_body]
fn parse_u64(s: &str) -> (r: Option<u64>)
    ensures
        r == decimal_value(s@),
{
    s.parse::<u64>().ok()
}

/// Relies on `u64`'s `Display` through `ToString`: plain decimal digits.
#[verifier::external_body]
fn decimal_text(n: u64) -> (r: String)
    ensures
        r@ == decimal_digits(n as nat),
{
    n.to_string()
}

/// The final component of a path, as text, if it has one.
pub uninterp spec fn file_name_of(path: Seq<char>) -> Option<Seq<char>>;

/// Relies on `std::path::Path::file_name` and `OsStr::to_str`: the name of
/// the path's final component, which depends on the path alone.
#[verifier::external_body]
fn leaf_name(path: &str) -> (r: Option<String>)
    ensures
        r matches Some(s) ==> file_name_of(path@) == Some(s@),
        r is None ==> file_name_of(path@) is None,
{
    std::path::Path::new(path).file_name().and_then(|n| n.to_str()).map(|n| n.to_string())
}

/// What a valid read request resolves to: the name of the file to serve.
pub open spec fn request_outcome(filename: Seq<char>, mode: Seq<char>) -> Result<
    Seq<char>,
    TransferError,
> {
    if mode != "octet"@ {
        Err(TransferError::UnsupportedMode)
    } else {
        match file_name_of(filename) {
            Some(leaf) => Ok(leaf),
            None => Err(TransferError::BadFilename),
        }
    }
}

/// Checks a read request's mode, and strips its file name to the final
/// component, so that a request cannot leave the served directory.
pub fn check_request(filename: &String, mode: &String) -> (r: Result<String, TransferError>)
    ensures
        match r {
            Ok(leaf) => request_outcome(filename@, mode@) == Ok::<_, TransferError>(leaf@),
            Err(e) => request_outcome(filename@, mode@) == Err::<Seq<char>, _>(e),
        },
{
    if *mode != "octet".to_owned() {
        return Err(TransferError::UnsupportedMode);
    }
    match leaf_name(filename.as_str()) {
        Some(leaf) => Ok(leaf),
        None => Err(TransferError::BadFilename),
    }
}


/// The value of the last pair whose key is `key`.
pub open spec fn last_value(o: Seq<(Seq<char>, Seq<char>)>, key: Seq<char>) -> Option<Seq<char>>
    decreases o.len(),
{
    if o.len() == 0 {
        None
    } else if o.last().0 == key {
        Some(o.last().1)
    } else {
        last_value(o.drop_last(), key)
    }
}

/// A requested block size brought into the range that RFC 2348 allows.
pub open spec fn clamp_block_size(n: u64) -> u16 {
    if n > MAX_BLOCK_SIZE as u64 {
        MAX_BLOCK_SIZE
    } else if n < MIN_BLOCK_SIZE as u64 {
        MIN_BLOCK_SIZE
    } else {
        n as u16
    }
}

/// Whether a value is usable for its key: an integer for `blksize`, an
/// integer in `1..=65535` for `windowsize`; any value for other keys.
pub open spec fn option_value_ok(key: Seq<char>, value: Seq<char>) -> bool {
    &&& key == "blksize"@ ==> decimal_value(value) is Some
    &&& key == "windowsize"@ ==> (decimal_value(value) matches Some(n) && 1 <= n <= 65535)
}

/// Whether every pair of `o` holds a usable value.
pub open spec fn options_ok(o: Seq<(Seq<char>, Seq<char>)>) -> bool {
    forall|i: int| 0 <= i < o.len() ==> option_value_ok(#[trigger] o[i].0, o[i].1)
}

/// The block size that the options settle on.
pub open spec fn negotiated_blksize(o: Seq<(Seq<char>, Seq<char>)>) -> u16 {
    match last_value(o, "blksize"@) {
        Some(v) => clamp_block_size(decimal_value(v)->0),
        None => DEF_BLOCK_SIZE,
    }
}

/// The window size that the options settle on.
pub open spec fn negotiated_windowsize(o: Seq<(Seq<char>, Seq<char>)>) -> u16 {
    match last_value(o, "windowsize"@) {
        Some(v) => decimal_value(v)->0 as u16,
        None => DEF_WINDOW_SIZE,
    }
}

/// The options that the server acknowledges, for a file of `filesize`
/// bytes: each recognised key once, in the order `blksize`, `windowsize`,
/// `tsize`; the block size as clamped, the window size verbatim, and the
/// file's size.
pub open spec fn echoed_options(o: Seq<(Seq<char>, Seq<char>)>, filesize: u64) -> Seq<
    (Seq<char>, Seq<char>),
> {
    let b: Seq<(Seq<char>, Seq<char>)> = if last_value(o, "blksize"@) is Some {
        seq![("blksize"@, decimal_digits(negotiated_blksize(o) as nat))]
    } else {
        Seq::empty()
    };
    let w: Seq<(Seq<char>, Seq<char>)> = match last_value(o, "windowsize"@) {
        Some(v) => seq![("windowsize"@, v)],
        None => Seq::empty(),
    };
    let t: Seq<(Seq<char>, Seq<char>)> = if last_value(o, "tsize"@) is Some {
        seq![("tsize"@, decimal_digits(filesize as nat))]
    } else {
        Seq::empty()
    };
    b + w + t
}

/// The outcome of option negotiation.
#[derive(Debug, Clone, PartialEq, Eq)]
pub struct Negotiation {
    pub blksize: u16,
    pub windowsize: u16,
    /// The pairs to send back in an OACK; empty when no option was recognised.
    pub oack: OptionList,
}

proof fn lemma_last_value_step(o: Seq<(Seq<char>, Seq<char>)>, i: int, key: Seq<char>)
    requires
        0 <= i < o.len(),
    ensures
        last_value(o.subrange(0, i + 1), key) == if o[i].0 == key {
            Some(o[i].1)
        } else {
            last_value(o.subrange(0, i), key)
        },
{
    assert(o.subrange(0, i + 1).drop_last() =~= o.subrange(0, i));
}

/// Negotiates the request's options for a file of `filesize` bytes.
///
/// `blksize` is clamped to `[MIN_BLOCK_SIZE, MAX_BLOCK_SIZE]`, `windowsize`
/// taken as given, `tsize` answered with the file's size; other keys are
/// ignored. Where a key repeats, its last value counts. A `blksize` that is
/// no integer, or a `windowsize` outside `1..=65535`, fails the negotiation.
pub fn negotiate(options: &OptionList, filesize: u64) -> (r: Result<Negotiation, TransferError>)
    ensures
        r is Ok <==> options_ok(options_view(options@)),
        r matches Err(e) ==> e == TransferError::BadOptionValue,
        r matches Ok(n) ==> {
            &&& n.blksize == negotiated_blksize(options_view(options@))
            &&& n.windowsize == negotiated_windowsize(options_view(options@))
            &&& options_view(n.oack@) == echoed_options(options_view(options@), filesize)
        },
{
    let ghost ov = options_view(options@);
    let mut blk: Option<u16> = None;
    let mut win: Option<(u16, String)> = None;
    let mut tsize = false;
    let mut i: usize = 0;
    while i < options.len()
        invariant
            i <= options@.len(),
            ov == options_view(options@),
            options_ok(ov.subrange(0, i as int)),
            blk == (match last_value(ov.subrange(0, i as int), "blksize"@) {
                Some(v) => Some(clamp_block_size(decimal_value(v)->0)),
                None => None::<u16>,
            }),
            win is Some <==> last_value(ov.subrange(0, i as int), "windowsize"@) is Some,
            win matches Some((n, v)) ==> {
                &&& last_value(ov.subrange(0, i as int), "windowsize"@) == Some(v@)
                &&& decimal_value(v@) == Some(n as u64)
                &&& 1 <= n
            },
            tsize == last_value(ov.subrange(0, i as int), "tsize"@) is Some,
        decreases options@.len() - i,
    {
        let key = &options[i].0;
        let value = &options[i].1;
        assert(ov[i as int] == (key@, value@));
        proof {
            lemma_last_value_step(ov, i as int, "blksize"@);
            lemma_last_value_step(ov, i as int, "windowsize"@);
            lemma_last_value_step(ov, i as int, "tsize"@);
            reveal_strlit("blksize");
            reveal_strlit("windowsize");
            reveal_strlit("tsize");
            assert("blksize"@.len() == 7);
            assert("windowsize"@.len() == 10);
            assert("tsize"@.len() == 5);
        }
        if *key == "blksize".to_owned() {
            match parse_u64(value.as_str()) {
                Some(n) => {
                    let b: u16 = if n > MAX_BLOCK_SIZE as u64 {
                        MAX_BLOCK_SIZE
                    } else if n < MIN_BLOCK_SIZE as u64 {
                        MIN_BLOCK_SIZE
                    } else {
                        n as u16
                    };
                    blk = Some(b);
                },
                None => {
                    assert(!option_value_ok(ov[i as int].0, ov[i as int].1));
                    return Err(TransferError::BadOptionValue);
                },
            }
        } else if *key == "windowsize".to_owned() {
            match parse_u64(value.as_str()) {
                Some(n) => {
                    if n < 1 || n > 65535 {
                        assert(!option_value_ok(ov[i as int].0, ov[i as int].1));
                        return Err(TransferError::BadOptionValue);
                    }
                    win = Some((n as u16, value.clone()));
                },
                None => {
                    assert(!option_value_ok(ov[i as int].0, ov[i as int].1));
                    return Err(TransferError::BadOptionValue);
                },
            }
        } else if *key == "tsize".to_owned() {
            tsize = true;
        }
        assert(ov.subrange(0, i + 1)[i as int] == ov[i as int]);
        assert(option_value_ok(ov[i as int].0, ov[i as int].1));
        assert forall|j: int| 0 <= j < i + 1 implies option_value_ok(
            #[trigger] ov.subrange(0, i + 1)[j].0,
            ov.subrange(0, i + 1)[j].1,
        ) by {
            if j < i {
                assert(ov.subrange(0, i + 1)[j] == ov.subrange(0, i as int)[j]);
            }
        }
        i += 1;
    }
    assert(ov.subrange(0, options@.len() as int) =~= ov);
    let mut oack: OptionList = Vec::new();
    let mut blksize = DEF_BLOCK_SIZE;
    let mut windowsize = DEF_WINDOW_SIZE;
    if let Some(b) = blk {
        blksize = b;
        oack.push(("blksize".to_owned(), decimal_text(b as u64)));
    }
    if let Some((n, v)) = win {
        windowsize = n;
        oack.push(("windowsize".to_owned(), v));
    }
    if tsize {
        oack.push(("tsize".to_owned(), decimal_text(filesize)));
    }
    assert(options_view(oack@) =~= echoed_options(ov, filesize));
    Ok(Negotiation { blksize, windowsize, oack })
}


/// The window size and Go-Back-N flag a transfer runs with: with the flag on
/// and a negotiated window of 1, the server widens its window to 4 on its
/// own; otherwise Go-Back-N is off.
pub open spec fn gbn_window(windowsize: u16, gbn: bool) -> (u16, bool) {
    if gbn && windowsize == 1 {
        (4, true)
    } else {
        (windowsize, false)
    }
}

/// Applies the Go-Back-N widening to a negotiated window size.
pub fn apply_gbn(windowsize: u16, gbn: bool) -> (r: (u16, bool))
    ensures
        r == gbn_window(windowsize, gbn),
{
    if gbn && windowsize == 1 {
        (4, true)
    } else {
        (windowsize, false)
    }
}

/// The retry count after one more timeout, or `None` once it reaches
/// `max_retries`.
pub open spec fn retry_after(retries: u8, max_retries: u8) -> Option<u8> {
    if retries as int + 1 >= max_retries as int {
        None
    } else {
        Some((retries + 1) as u8)
    }
}

/// Counts one more consecutive timeout; `None` means the transfer gives up.
pub fn retry_after_timeout(retries: u8, max_retries: u8) -> (r: Option<u8>)
    ensures
        r == retry_after(retries, max_retries),
{
    if retries as u16 + 1 >= max_retries as u16 {
        None
    } else {
        Some(retries + 1)
    }
}

/// The answer to an option acknowledgement: block 0 accepts it, any other
/// block ends the transfer.
pub fn check_oack_reply(block: u16) -> (r: Result<(), TransferError>)
    ensures
        block == 0 <==> r is Ok,
        r matches Err(e) ==> e == TransferError::UnexpectedBlock(block),
{
    if block == 0 {
        Ok(())
    } else {
        Err(TransferError::UnexpectedBlock(block))
    }
}

/// How far, in bytes, the file cursor moves when the next block to read moves
/// by `offset` blocks. Going back, the block read last may have been short:
/// it counts `last_read` bytes, the others `blksize` each.
pub open spec fn seek_for(offset: int, blksize: int, last_read: int) -> int {
    if offset > 0 {
        offset * blksize
    } else if offset < 0 {
        -((-offset - 1) * blksize + last_read)
    } else {
        0
    }
}

/// What the caller does next.
#[derive(Debug, Clone, Copy, PartialEq, Eq, Structural)]
pub enum Step {
    /// Move the file cursor by `seek` bytes and go on sending.
    Resume { seek: i64 },
    /// The last block is acknowledged: the transfer is done.
    Complete,
    /// Too many consecutive timeouts: send an error and stop.
    GiveUp,
}

/// The state of one transfer's data phase.
#[derive(Debug, Clone, Copy, PartialEq, Eq, Structural)]
pub struct Transfer {
    pub window: Window,
    pub blksize: u16,
    pub gbn: bool,
    /// The short block that ends the file has been sent.
    pub finish: bool,
    /// Consecutive timeouts so far.
    pub retries: u8,
    pub max_retries: u8,
    /// Bytes in the block read last.
    pub last_read: usize,
}

impl Transfer {
    /// The state's invariant.
    pub open spec fn wf(&self) -> bool {
        &&& self.window.wf()
        &&& 1 <= self.blksize
        &&& self.last_read <= self.blksize
        &&& self.retries < self.max_retries || self.retries == 0
    }

    /// The state after an acknowledgement of `ack` moved the window, with
    /// `retries` consecutive timeouts counted, and the step it leads to.
    ///
    /// A window that moved asks for a seek of `seek_for` bytes and clears
    /// `finish`. The transfer is complete only when the window did not move
    /// past what was sent, the end of the file was sent, and the step comes
    /// from a real acknowledgement (no timeout is counted).
    pub open spec fn spec_advance(self, ack: u16, retries: u8) -> (Transfer, Step) {
        let (w, off) = self.window.spec_update(ack);
        if off != 0 {
            (
                Transfer { window: w, finish: false, retries, ..self },
                Step::Resume { seek: seek_for(off, self.blksize as int, self.last_read as int) as i64 },
            )
        } else if self.finish && retries == 0 {
            (Transfer { window: w, retries, ..self }, Step::Complete)
        } else {
            (Transfer { window: w, retries, ..self }, Step::Resume { seek: 0 })
        }
    }

    /// A transfer that has sent nothing, over a window of `windowsize` blocks.
    pub fn new(blksize: u16, windowsize: u16, gbn: bool, max_retries: u8) -> (t: Transfer)
        requires
            1 <= blksize,
            1 <= windowsize,
        ensures
            t.wf(),
            t.window == Window::new_spec(windowsize),
            t.blksize == blksize,
            t.gbn == gbn,
            !t.finish,
            t.retries == 0,
            t.max_retries == max_retries,
            t.last_read == 0,
    {
        Transfer {
            window: Window::new(windowsize),
            blksize,
            gbn,
            finish: false,
            retries: 0,
            max_retries,
            last_read: 0,
        }
    }

    /// The next block to send, or `None` when the window is exhausted or the
    /// end of the file has been sent.
    pub fn next_block(&mut self) -> (r: Option<u16>)
        requires
            old(self).wf(),
        ensures
            final(self).wf(),
            old(self).finish ==> r is None && *final(self) == *old(self),
            !old(self).finish ==> {
                &&& (r, final(self).window) == old(self).window.spec_next()
                &&& *final(self) == (Transfer { window: final(self).window, ..*old(self) })
            },
    {
        if self.finish {
            None
        } else {
            self.window.next()
        }
    }

    /// Records that `size` bytes were read for the block just taken; a short
    /// read ends the file. Returns whether to go on sending.
    pub fn record_read(&mut self, size: usize) -> (more: bool)
        requires
            old(self).wf(),
            size <= old(self).blksize,
        ensures
            final(self).wf(),
            *final(self) == (Transfer {
                last_read: size,
                finish: size < old(self).blksize,
                ..*old(self)
            }),
            more == !final(self).finish,
    {
        self.last_read = size;
        self.finish = size < self.blksize as usize;
        !self.finish
    }

    fn advance(&mut self, ack: u16) -> (r: Step)
        requires
            old(self).wf(),
        ensures
            final(self).wf(),
            (*final(self), r) == old(self).spec_advance(ack, old(self).retries),
    {
        let offset = self.window.update(ack, self.gbn);
        let ghost off = offset as int;
        if offset != 0 {
            let b = self.blksize as i64;
            let seek: i64 = if offset > 0 {
                assert(0 < off <= 65535 && 1 <= b <= 65535);
                assert(off * b <= 65535 * 65535) by (nonlinear_arith)
                    requires
                        0 < off <= 65535,
                        1 <= b <= 65535,
                ;
                offset * b
            } else {
                let k = -offset - 1;
                assert(0 <= k <= 65535 && 1 <= b <= 65535);
                assert(k * b <= 65535 * 65535) by (nonlinear_arith)
                    requires
                        0 <= k <= 65535,
                        1 <= b <= 65535,
                ;
                assert(k * b >= 0) by (nonlinear_arith)
                    requires
                        0 <= k,
                        1 <= b,
                ;
                -(k * b + self.last_read as i64)
            };
            self.finish = false;
            Step::Resume { seek }
        } else if self.finish && self.retries == 0 {
            Step::Complete
        } else {
            Step::Resume { seek: 0 }
        }
    }

    /// Handles an acknowledgement of block `ack`: the timeout count starts
    /// over and the window moves. A rewind or a jump asks for a seek and
    /// clears `finish`; once the block that ended the file is acknowledged
    /// with nothing to resend, the transfer is complete.
    pub fn on_ack(&mut self, ack: u16) -> (r: Step)
        requires
            old(self).wf(),
        ensures
            final(self).wf(),
            (*final(self), r) == (Transfer { retries: 0, ..*old(self) }).spec_advance(ack, 0),
            r != Step::GiveUp,
    {
        self.retries = 0;
        self.advance(ack)
    }

    /// Handles a wait that ended with no datagram: one more timeout is
    /// counted; short of `max_retries`, the whole window is sent again, as
    /// though the block before the window's base had been acknowledged.
    pub fn on_timeout(&mut self) -> (r: Step)
        requires
            old(self).wf(),
        ensures
            match retry_after(old(self).retries, old(self).max_retries) {
                None => r == Step::GiveUp && *final(self) == *old(self),
                Some(n) => {
                    &&& final(self).wf()
                    &&& (*final(self), r) == (Transfer { retries: n, ..*old(self) }).spec_advance(
                        block_add(old(self).window.start, 65535),
                        n,
                    )
                    &&& r != Step::Complete
                },
            },
    {
        match retry_after_timeout(self.retries, self.max_retries) {
            None => Step::GiveUp,
            Some(n) => {
                self.retries = n;
                let ack = self.window.start.wrapping_sub(1);
                assert(ack == block_add(old(self).window.start, 65535));
                self.advance(ack)
            },
        }
    }
}

/// Reads a datagram that arrived while waiting for an acknowledgement: the
/// acknowledged block, or why there is none.
pub fn ack_in_reply(buf: &[u8]) -> (r: Result<u16, ReplyError>)
    ensures
        match decode(buf@) {
            Err(e) => r == Err::<u16, _>(ReplyError::Malformed(e)),
            Ok(PacketView::Ack(b)) => r == Ok::<_, ReplyError>(b),
            Ok(PacketView::Error { code, msg }) => r matches Err(
                ReplyError::Remote { code: c, msg: m },
            ) && c == code && m@ == msg,
            Ok(_) => r == Err::<u16, _>(ReplyError::NotAck),
        },
{
    match TftpPacket::deserialize(buf) {
        Err(e) => Err(ReplyError::Malformed(e)),
        Ok(TftpPacket::ACK(b)) => Ok(b),
        Ok(TftpPacket::ERROR { code, msg }) => Err(ReplyError::Remote { code, msg }),
        Ok(_) => Err(ReplyError::NotAck),
    }
}

} // verus!
