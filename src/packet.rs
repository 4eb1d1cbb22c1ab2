//! The TFTP packet codec: six packet shapes and their byte-exact framing.
use vstd::prelude::*;
use vstd::slice::{slice_subrange, slice_to_vec};
use vstd::utf8::*;

verus! {

/// Option pairs as they stand on the wire, in order.
pub type OptionList = Vec<(String, String)>;

/// A TFTP packet.
#[derive(Debug, Clone, PartialEq, Eq)]
pub enum TftpPacket {
    RRQ { filename: String, mode: String, options: OptionList },
    WRQ { filename: String, mode: String, options: OptionList },
    DATA { block: u16, data: Vec<u8> },
    ACK(u16),
    ERROR { code: u16, msg: String },
    OACK(OptionList),
}

/// Why a byte string is not a packet.
#[derive(Debug, Clone, Copy, PartialEq, Eq, Structural)]
pub enum DecodeError {
    /// Fewer than four bytes.
    TooShort,
    /// An opcode outside `1..=6`.
    InvalidOpcode(u16),
    /// A string field without its NUL terminator.
    MissingTerminator,
    /// A string field that is not valid UTF-8.
    BadEncoding,
}

/// The mathematical content of a packet: strings as characters, payloads as
/// bytes.
pub enum PacketView {
    Rrq { filename: Seq<char>, mode: Seq<char>, options: Seq<(Seq<char>, Seq<char>)> },
    Wrq { filename: Seq<char>, mode: Seq<char>, options: Seq<(Seq<char>, Seq<char>)> },
    Data { block: u16, data: Seq<u8> },
    Ack(u16),
    Error { code: u16, msg: Seq<char> },
    Oack(Seq<(Seq<char>, Seq<char>)>),
}

/// The characters of each option pair.
pub open spec fn options_view(o: Seq<(String, String)>) -> Seq<(Seq<char>, Seq<char>)> {
    o.map_values(|p: (String, String)| (p.0@, p.1@))
}

impl View for TftpPacket {
    type V = PacketView;

    open spec fn view(&self) -> PacketView {
        match self {
            TftpPacket::RRQ { filename, mode, options } => PacketView::Rrq {
                filename: filename@,
                mode: mode@,
                options: options_view(options@),
            },
            TftpPacket::WRQ { filename, mode, options } => PacketView::Wrq {
                filename: filename@,
                mode: mode@,
                options: options_view(options@),
            },
            TftpPacket::DATA { block, data } => PacketView::Data { block: *block, data: data@ },
            TftpPacket::ACK(b) => PacketView::Ack(*b),
            TftpPacket::ERROR { code, msg } => PacketView::Error { code: *code, msg: msg@ },
            TftpPacket::OACK(o) => PacketView::Oack(options_view(o@)),
        }
    }
}

/// A 16-bit integer, big-endian.
pub open spec fn be16(x: u16) -> Seq<u8> {
    seq![(x / 256) as u8, (x % 256) as u8]
}

/// The big-endian 16-bit integer at `b[i]`, `b[i + 1]`.
pub open spec fn be16_at(b: Seq<u8>, i: int) -> u16 {
    (b[i] as int * 256 + b[i + 1] as int) as u16
}

/// A string field: its UTF-8 bytes and a NUL.
pub open spec fn cstr(s: Seq<char>) -> Seq<u8> {
    encode_utf8(s).push(0u8)
}

/// The `key\0value\0` pairs, in order.
pub open spec fn options_bytes(o: Seq<(Seq<char>, Seq<char>)>) -> Seq<u8>
    decreases o.len(),
{
    if o.len() == 0 {
        Seq::empty()
    } else {
        options_bytes(o.drop_last()) + cstr(o.last().0) + cstr(o.last().1)
    }
}

/// The wire form of a packet.
pub open spec fn encode(p: PacketView) -> Seq<u8> {
    match p {
        PacketView::Rrq { filename, mode, options } => be16(1) + cstr(filename) + cstr(mode)
            + options_bytes(options),
        PacketView::Wrq { filename, mode, options } => be16(2) + cstr(filename) + cstr(mode)
            + options_bytes(options),
        PacketView::Data { block, data } => be16(3) + be16(block) + data,
        PacketView::Ack(block) => be16(4) + be16(block),
        PacketView::Error { code, msg } => be16(5) + be16(code) + cstr(msg),
        PacketView::Oack(options) => be16(6) + options_bytes(options),
    }
}

/// The index of the first NUL in `b` at or after `from`, or `b.len()` if none.
pub open spec fn first_nul(b: Seq<u8>, from: int) -> int
    decreases b.len() - from,
{
    if from >= b.len() {
        b.len() as int
    } else if b[from] == 0 {
        from
    } else {
        first_nul(b, from + 1)
    }
}

/// The string field that starts at `b[from]`, with the index just past its NUL.
pub open spec fn cstr_at(b: Seq<u8>, from: int) -> Result<(Seq<char>, int), DecodeError> {
    let k = first_nul(b, from);
    if k >= b.len() {
        Err(DecodeError::MissingTerminator)
    } else if !valid_utf8(b.subrange(from, k)) {
        Err(DecodeError::BadEncoding)
    } else {
        Ok((decode_utf8(b.subrange(from, k)), k + 1))
    }
}

/// The option pairs from `b[from]` to the end, appended to `acc`.
pub open spec fn options_from(
    b: Seq<u8>,
    from: int,
    acc: Seq<(Seq<char>, Seq<char>)>,
) -> Result<Seq<(Seq<char>, Seq<char>)>, DecodeError>
    decreases b.len() - from,
{
    if from >= b.len() {
        Ok(acc)
    } else {
        match cstr_at(b, from) {
            Err(e) => Err(e),
            Ok((key, p)) => match cstr_at(b, p) {
                Err(e) => Err(e),
                Ok((value, q)) => if from < q {
                    options_from(b, q, acc.push((key, value)))
                } else {
                    Ok(acc)
                },
            },
        }
    }
}

/// The packet that the bytes `b` hold, or why they hold none.
pub open spec fn decode(b: Seq<u8>) -> Result<PacketView, DecodeError> {
    if b.len() < 4 {
        Err(DecodeError::TooShort)
    } else {
        let op = be16_at(b, 0);
        if op == 1 || op == 2 {
            match cstr_at(b, 2) {
                Err(e) => Err(e),
                Ok((filename, p)) => match cstr_at(b, p) {
                    Err(e) => Err(e),
                    Ok((mode, q)) => match options_from(b, q, Seq::empty()) {
                        Err(e) => Err(e),
                        Ok(options) => Ok(
                            if op == 1 {
                                PacketView::Rrq { filename, mode, options }
                            } else {
                                PacketView::Wrq { filename, mode, options }
                            },
                        ),
                    },
                },
            }
        } else if op == 3 {
            Ok(PacketView::Data { block: be16_at(b, 2), data: b.subrange(4, b.len() as int) })
        } else if op == 4 {
            Ok(PacketView::Ack(be16_at(b, 2)))
        } else if op == 5 {
            match cstr_at(b, 4) {
                Err(e) => Err(e),
                Ok((msg, _)) => Ok(PacketView::Error { code: be16_at(b, 2), msg }),
            }
        } else if op == 6 {
            match options_from(b, 2, Seq::empty()) {
                Err(e) => Err(e),
                Ok(options) => Ok(PacketView::Oack(options)),
            }
        } else {
            Err(DecodeError::InvalidOpcode(op))
        }
    }
}

/// Relies on `std::str::from_utf8`: it accepts exactly the valid UTF-8 byte
/// strings, and decodes them.
#[verifier::external_body]
fn utf8_text(b: &[u8]) -> (r: Option<&str>)
    ensures
        r is Some <==> valid_utf8(b@),
        r matches Some(s) ==> s@ == decode_utf8(b@),
{
    std::str::from_utf8(b).ok()
}

fn push_bytes(out: &mut Vec<u8>, b: &[u8])
    ensures
        final(out)@ == old(out)@ + b@,
{
    let mut i: usize = 0;
    while i < b.len()
        invariant
            i <= b@.len(),
            out@ == old(out)@ + b@.subrange(0, i as int),
        decreases b@.len() - i,
    {
        out.push(b[i]);
        i += 1;
        assert(out@ =~= old(out)@ + b@.subrange(0, i as int));
    }
    assert(b@.subrange(0, b@.len() as int) =~= b@);
}

fn push_be16(out: &mut Vec<u8>, x: u16)
    ensures
        final(out)@ == old(out)@ + be16(x),
{
    out.push((x / 256) as u8);
    out.push((x % 256) as u8);
    assert(out@ =~= old(out)@ + be16(x));
}

fn push_cstr(out: &mut Vec<u8>, s: &String)
    ensures
        final(out)@ == old(out)@ + cstr(s@),
{
    let b = s.as_str().as_bytes();
    push_bytes(out, b);
    out.push(0u8);
    assert(out@ =~= old(out)@ + cstr(s@));
}

fn push_options(out: &mut Vec<u8>, o: &OptionList)
    ensures
        final(out)@ == old(out)@ + options_bytes(options_view(o@)),
{
    let mut i: usize = 0;
    while i < o.len()
        invariant
            i <= o@.len(),
            out@ == old(out)@ + options_bytes(options_view(o@).subrange(0, i as int)),
        decreases o@.len() - i,
    {
        let ghost before = out@;
        push_cstr(out, &o[i].0);
        push_cstr(out, &o[i].1);
        let ghost sub = options_view(o@).subrange(0, i + 1);
        assert(sub.drop_last() =~= options_view(o@).subrange(0, i as int));
        assert(sub.last() == (o@[i as int].0@, o@[i as int].1@));
        assert(out@ =~= old(out)@ + options_bytes(sub));
        i += 1;
    }
    assert(options_view(o@).subrange(0, o@.len() as int) =~= options_view(o@));
}

/// Reads the string field at `buf[from]`: its text and the index past its NUL.
fn read_cstr(buf: &[u8], from: usize) -> (r: Result<(String, usize), DecodeError>)
    requires
        from <= buf@.len(),
    ensures
        match r {
            Ok((s, n)) => {
                &&& cstr_at(buf@, from as int) == Ok::<_, DecodeError>((s@, n as int))
                &&& from < n <= buf@.len()
            },
            Err(e) => cstr_at(buf@, from as int) == Err::<(Seq<char>, int), _>(e),
        },
{
    let mut i = from;
    while i < buf.len() && buf[i] != 0
        invariant
            from <= i <= buf@.len(),
            first_nul(buf@, i as int) == first_nul(buf@, from as int),
        decreases buf@.len() - i,
    {
        i += 1;
    }
    if i == buf.len() {
        return Err(DecodeError::MissingTerminator);
    }
    let field = slice_subrange(buf, from, i);
    match utf8_text(field) {
        Some(text) => Ok((text.to_owned(), i + 1)),
        None => Err(DecodeError::BadEncoding),
    }
}

/// Reads option pairs from `buf[from]` to the end of `buf`.
fn read_options(buf: &[u8], from: usize) -> (r: Result<OptionList, DecodeError>)
    requires
        from <= buf@.len(),
    ensures
        match r {
            Ok(o) => options_from(buf@, from as int, Seq::empty()) == Ok::<_, DecodeError>(
                options_view(o@),
            ),
            Err(e) => options_from(buf@, from as int, Seq::empty()) == Err::<
                Seq<(Seq<char>, Seq<char>)>,
                _,
            >(e),
        },
{
    let mut out: OptionList = Vec::new();
    let mut pos = from;
    assert(options_view(out@) =~= Seq::empty());
    while pos < buf.len()
        invariant
            from <= pos <= buf@.len(),
            options_from(buf@, from as int, Seq::empty()) == options_from(
                buf@,
                pos as int,
                options_view(out@),
            ),
        decreases buf@.len() - pos,
    {
        let (key, p) = match read_cstr(buf, pos) {
            Ok(kp) => kp,
            Err(e) => return Err(e),
        };
        let (value, q) = match read_cstr(buf, p) {
            Ok(vq) => vq,
            Err(e) => return Err(e),
        };
        let ghost acc = options_view(out@);
        out.push((key, value));
        assert(options_view(out@) =~= acc.push((key@, value@)));
        pos = q;
    }
    Ok(out)
}

impl TftpPacket {
    /// The packet's wire form.
    pub fn serialize(&self) -> (r: Vec<u8>)
        ensures
            r@ == encode(self@),
    {
        let mut bytes: Vec<u8> = Vec::new();
        match self {
            TftpPacket::RRQ { filename, mode, options } => {
                push_be16(&mut bytes, 1);
                push_cstr(&mut bytes, filename);
                push_cstr(&mut bytes, mode);
                push_options(&mut bytes, options);
            },
            TftpPacket::WRQ { filename, mode, options } => {
                push_be16(&mut bytes, 2);
                push_cstr(&mut bytes, filename);
                push_cstr(&mut bytes, mode);
                push_options(&mut bytes, options);
            },
            TftpPacket::DATA { block, data } => {
                push_be16(&mut bytes, 3);
                push_be16(&mut bytes, *block);
                push_bytes(&mut bytes, data.as_slice());
            },
            TftpPacket::ACK(block) => {
                push_be16(&mut bytes, 4);
                push_be16(&mut bytes, *block);
            },
            TftpPacket::ERROR { code, msg } => {
                push_be16(&mut bytes, 5);
                push_be16(&mut bytes, *code);
                push_cstr(&mut bytes, msg);
            },
            TftpPacket::OACK(options) => {
                push_be16(&mut bytes, 6);
                push_options(&mut bytes, options);
            },
        }
        assert(bytes@ =~= encode(self@));
        bytes
    }

    /// The packet that `buf` holds, or why it holds none.
    pub fn deserialize(buf: &[u8]) -> (r: Result<TftpPacket, DecodeError>)
        ensures
            match r {
                Ok(p) => decode(buf@) == Ok::<_, DecodeError>(p@),
                Err(e) => decode(buf@) == Err::<PacketView, _>(e),
            },
    {
        if buf.len() < 4 {
            return Err(DecodeError::TooShort);
        }
        let opcode: u16 = (buf[0] as u16) * 256 + buf[1] as u16;
        let arg: u16 = (buf[2] as u16) * 256 + buf[3] as u16;
        if opcode == 1 || opcode == 2 {
            let (filename, p) = match read_cstr(buf, 2) {
                Ok(fp) => fp,
                Err(e) => return Err(e),
            };
            let (mode, q) = match read_cstr(buf, p) {
                Ok(mq) => mq,
                Err(e) => return Err(e),
            };
            let options = match read_options(buf, q) {
                Ok(o) => o,
                Err(e) => return Err(e),
            };
            if opcode == 1 {
                Ok(TftpPacket::RRQ { filename, mode, options })
            } else {
                Ok(TftpPacket::WRQ { filename, mode, options })
            }
        } else if opcode == 3 {
            let data = slice_to_vec(slice_subrange(buf, 4, buf.len()));
            Ok(TftpPacket::DATA { block: arg, data })
        } else if opcode == 4 {
            Ok(TftpPacket::ACK(arg))
        } else if opcode == 5 {
            match read_cstr(buf, 4) {
                Ok((msg, _)) => Ok(TftpPacket::ERROR { code: arg, msg }),
                Err(e) => Err(e),
            }
        } else if opcode == 6 {
            match read_options(buf, 2) {
                Ok(o) => Ok(TftpPacket::OACK(o)),
                Err(e) => Err(e),
            }
        } else {
            Err(DecodeError::InvalidOpcode(opcode))
        }
    }
}


/// A string that travels intact as a field: ASCII, without NUL.
pub open spec fn clean_text(s: Seq<char>) -> bool {
    forall|i: int| 0 <= i < s.len() ==> '\0' < #[trigger] s[i] <= '\u{7f}'
}

/// Every key and value of `o` is a clean string.
pub open spec fn clean_options(o: Seq<(Seq<char>, Seq<char>)>) -> bool {
    forall|i: int| 0 <= i < o.len() ==> clean_text(#[trigger] o[i].0) && clean_text(o[i].1)
}

/// A packet whose strings are clean, and which is not an OACK without
/// options (whose two bytes would be too short to be a packet).
pub open spec fn clean_packet(p: PacketView) -> bool {
    match p {
        PacketView::Rrq { filename, mode, options } => clean_text(filename) && clean_text(mode)
            && clean_options(options),
        PacketView::Wrq { filename, mode, options } => clean_text(filename) && clean_text(mode)
            && clean_options(options),
        PacketView::Data { .. } => true,
        PacketView::Ack(_) => true,
        PacketView::Error { msg, .. } => clean_text(msg),
        PacketView::Oack(options) => options.len() > 0 && clean_options(options),
    }
}

proof fn lemma_first_nul(b: Seq<u8>, i: int, k: int)
    requires
        0 <= i <= k < b.len(),
        b[k] == 0,
        forall|j: int| i <= j < k ==> b[j] != 0,
    ensures
        first_nul(b, i) == k,
    decreases k - i,
{
    if i < k {
        lemma_first_nul(b, i + 1, k);
    }
}

proof fn lemma_cstr_at(b: Seq<u8>, from: int, s: Seq<char>)
    requires
        clean_text(s),
        0 <= from,
        from + s.len() + 1 <= b.len(),
        b.subrange(from, from + s.len() + 1) == cstr(s),
    ensures
        cstr_at(b, from) == Ok::<_, DecodeError>((s, from + s.len() + 1)),
{
    is_ascii_chars_encode_utf8(s);
    let e = encode_utf8(s);
    let n: int = s.len() as int;
    assert forall|j: int| from <= j < from + n implies b[j] != 0 by {
        assert(b[j] == b.subrange(from, from + n + 1)[j - from]);
        assert(e[j - from] == s[j - from] as u8);
        let c = s[j - from];
        assert('\0' < c <= '\u{7f}');
        char_u32_cast(c, c as u32);
    }
    assert(b[from + n] == b.subrange(from, from + n + 1)[n]);
    lemma_first_nul(b, from, from + n);
    assert(b.subrange(from, from + n) =~= e);
    encode_utf8_valid_utf8(s);
    encode_utf8_decode_utf8(s);
}

proof fn lemma_options_bytes_concat(a: Seq<(Seq<char>, Seq<char>)>, c: Seq<(Seq<char>, Seq<char>)>)
    ensures
        options_bytes(a + c) == options_bytes(a) + options_bytes(c),
    decreases c.len(),
{
    if c.len() == 0 {
        assert(a + c =~= a);
        assert(options_bytes(a) + options_bytes(c) =~= options_bytes(a));
    } else {
        lemma_options_bytes_concat(a, c.drop_last());
        assert((a + c).drop_last() =~= a + c.drop_last());
        assert((a + c).last() == c.last());
        assert(options_bytes(a + c) =~= options_bytes(a) + options_bytes(c));
    }
}

proof fn lemma_options_from(
    b: Seq<u8>,
    from: int,
    o: Seq<(Seq<char>, Seq<char>)>,
    acc: Seq<(Seq<char>, Seq<char>)>,
)
    requires
        clean_options(o),
        0 <= from <= b.len(),
        b.subrange(from, b.len() as int) == options_bytes(o),
    ensures
        options_from(b, from, acc) == Ok::<_, DecodeError>(acc + o),
    decreases o.len(),
{
    if o.len() == 0 {
        assert(acc + o =~= acc);
    } else {
        let x = o[0];
        let rest = o.drop_first();
        assert(o =~= seq![x] + rest);
        lemma_options_bytes_concat(seq![x], rest);
        assert(seq![x].drop_last() =~= Seq::<(Seq<char>, Seq<char>)>::empty());
        let kb = cstr(x.0);
        let vb = cstr(x.1);
        assert(seq![x].last() == x);
        assert(options_bytes(Seq::<(Seq<char>, Seq<char>)>::empty()) =~= Seq::<u8>::empty());
        assert(options_bytes(seq![x]) =~= kb + vb);
        assert(clean_text(o[0].0) && clean_text(o[0].1));
        encode_utf8_ascii_len(x.0);
        encode_utf8_ascii_len(x.1);
        let p: int = from + x.0.len() + 1;
        let q: int = p + x.1.len() + 1;
        let tail = b.subrange(from, b.len() as int);
        assert(options_bytes(o) == options_bytes(seq![x]) + options_bytes(rest));
        assert(tail =~= kb + vb + options_bytes(rest));
        assert(tail.len() == b.len() - from);
        assert(kb.len() == x.0.len() + 1);
        assert(b.subrange(from, p) =~= tail.subrange(0, p - from));
        assert(b.subrange(from, p) =~= kb);
        lemma_cstr_at(b, from, x.0);
        assert(b.subrange(p, q) =~= tail.subrange(p - from, q - from));
        assert(b.subrange(p, q) =~= vb);
        lemma_cstr_at(b, p, x.1);
        assert(b.subrange(q, b.len() as int) =~= tail.subrange(q - from, tail.len() as int));
        assert(b.subrange(q, b.len() as int) =~= options_bytes(rest));
        assert forall|i: int| 0 <= i < rest.len() implies clean_text(#[trigger] rest[i].0)
            && clean_text(rest[i].1) by {
            assert(rest[i] == o[i + 1]);
        }
        lemma_options_from(b, q, rest, acc.push(x));
        assert(acc.push(x) + rest =~= acc + o);
    }
}

proof fn encode_utf8_ascii_len(s: Seq<char>)
    requires
        clean_text(s),
    ensures
        encode_utf8(s).len() == s.len(),
        cstr(s).len() == s.len() + 1,
{
    is_ascii_chars_encode_utf8(s);
}

/// Decoding the encoding of a packet whose strings are ASCII without NUL gives
/// the packet back, options in their order.
pub proof fn lemma_decode_encode(p: PacketView)
    requires
        clean_packet(p),
    ensures
        decode(encode(p)) == Ok::<_, DecodeError>(p),
{
    let b = encode(p);
    match p {
        PacketView::Rrq { filename, mode, options } => {
            lemma_decode_encode_request(p, 1, filename, mode, options);
        },
        PacketView::Wrq { filename, mode, options } => {
            lemma_decode_encode_request(p, 2, filename, mode, options);
        },
        PacketView::Data { block, data } => {
            assert(be16_at(b, 0) == 3);
            assert(be16_at(b, 2) == block);
            assert(b.subrange(4, b.len() as int) =~= data);
        },
        PacketView::Ack(block) => {
            assert(be16_at(b, 0) == 4);
            assert(be16_at(b, 2) == block);
        },
        PacketView::Error { code, msg } => {
            encode_utf8_ascii_len(msg);
            assert(be16_at(b, 0) == 5);
            assert(be16_at(b, 2) == code);
            assert(b.subrange(4, 4 + msg.len() as int + 1) =~= cstr(msg));
            lemma_cstr_at(b, 4, msg);
        },
        PacketView::Oack(options) => {
            assert(options_bytes(options).len() > 0) by {
                let x = options.last();
                assert(clean_text(options[options.len() - 1].0));
                encode_utf8_ascii_len(x.0);
                encode_utf8_ascii_len(x.1);
            }
            assert(be16_at(b, 0) == 6);
            assert(b.subrange(2, b.len() as int) =~= options_bytes(options));
            lemma_options_from(b, 2, options, Seq::empty());
            assert(Seq::<(Seq<char>, Seq<char>)>::empty() + options =~= options);
        },
    }
}

#[verifier::rlimit(60)]
proof fn lemma_decode_encode_request(
    p: PacketView,
    op: u16,
    filename: Seq<char>,
    mode: Seq<char>,
    options: Seq<(Seq<char>, Seq<char>)>,
)
    requires
        op == 1 || op == 2,
        clean_text(filename),
        clean_text(mode),
        clean_options(options),
        op == 1 ==> p == (PacketView::Rrq { filename, mode, options }),
        op == 2 ==> p == (PacketView::Wrq { filename, mode, options }),
    ensures
        decode(encode(p)) == Ok::<_, DecodeError>(p),
{
    let b = encode(p);
    encode_utf8_ascii_len(filename);
    encode_utf8_ascii_len(mode);
    assert(b =~= be16(op) + cstr(filename) + cstr(mode) + options_bytes(options));
    assert(be16_at(b, 0) == op);
    let pp: int = 2 + filename.len() as int + 1;
    let q: int = pp + mode.len() + 1;
    assert(b.subrange(2, pp) =~= cstr(filename));
    lemma_cstr_at(b, 2, filename);
    assert(b.subrange(pp, q) =~= cstr(mode));
    lemma_cstr_at(b, pp, mode);
    assert(b.subrange(q, b.len() as int) =~= options_bytes(options));
    lemma_options_from(b, q, options, Seq::empty());
    assert(Seq::<(Seq<char>, Seq<char>)>::empty() + options =~= options);
}


proof fn lemma_no_nul(b: Seq<u8>, i: int)
    requires
        0 <= i <= b.len(),
        forall|j: int| i <= j < b.len() ==> b[j] != 0,
    ensures
        first_nul(b, i) == b.len(),
    decreases b.len() - i,
{
    if i < b.len() {
        lemma_no_nul(b, i + 1);
    }
}

/// Decoding rejects a buffer shorter than four bytes as `TooShort`, an opcode
/// outside `1..=6` as `InvalidOpcode`, and a request whose file name has no
/// NUL as `MissingTerminator`.
pub proof fn lemma_decode_rejects(b: Seq<u8>)
    ensures
        b.len() < 4 ==> decode(b) == Err::<PacketView, _>(DecodeError::TooShort),
        b.len() >= 4 && (be16_at(b, 0) == 0 || be16_at(b, 0) >= 7) ==> decode(b) == Err::<
            PacketView,
            _,
        >(DecodeError::InvalidOpcode(be16_at(b, 0))),
        b.len() >= 4 && (be16_at(b, 0) == 1 || be16_at(b, 0) == 2) && (forall|j: int|
            2 <= j < b.len() ==> b[j] != 0) ==> decode(b) == Err::<PacketView, _>(
            DecodeError::MissingTerminator,
        ),
{
    if b.len() >= 4 && forall|j: int| 2 <= j < b.len() ==> b[j] != 0 {
        lemma_no_nul(b, 2);
    }
}

/// A request whose file name ends at the NUL `b[k]` but whose mode has no NUL
/// is rejected as `MissingTerminator`.
pub proof fn lemma_decode_rejects_open_mode(b: Seq<u8>, k: int)
    requires
        b.len() >= 4,
        be16_at(b, 0) == 1 || be16_at(b, 0) == 2,
        2 <= k < b.len(),
        b[k] == 0,
        forall|j: int| 2 <= j < k ==> b[j] != 0,
        valid_utf8(b.subrange(2, k)),
        forall|j: int| k < j < b.len() ==> b[j] != 0,
    ensures
        decode(b) == Err::<PacketView, _>(DecodeError::MissingTerminator),
{
    lemma_first_nul(b, 2, k);
    lemma_no_nul(b, k + 1);
}

} // verus!
