//! gzip: its options, and the gzip stream it writes: the data in DEFLATE
//! stored blocks, with the CRC-32 and the length of the data.
use vstd::prelude::*;
use crate::text::{chars_of, chars_of_all, concat, ends_with, ends_with_lit, eq_lit, views};

verus! {

/// The options of an invocation.
pub struct GzipArgs {
    pub keep: bool,
    pub force: bool,
    pub stdout: bool,
    pub decompress: bool,
    pub files: Vec<String>,
}

pub struct ArgsView {
    pub keep: bool,
    pub force: bool,
    pub stdout: bool,
    pub decompress: bool,
    pub files: Seq<Seq<char>>,
}

impl View for GzipArgs {
    type V = ArgsView;

    open spec fn view(&self) -> ArgsView {
        ArgsView {
            keep: self.keep,
            force: self.force,
            stdout: self.stdout,
            decompress: self.decompress,
            files: views(self.files@),
        }
    }
}

pub open spec fn args_start() -> ArgsView {
    ArgsView { keep: false, force: false, stdout: false, decompress: false, files: seq![] }
}

/// Reading the words from `i` on: `-k`, `-f`, `-c`, `-d`; the level
/// options (`-1`, `-9`, `--fast`, `--best`, `-N`) change nothing written;
/// words that do not start with `-` are files. `None`: help was asked for.
pub open spec fn args_scan(args: Seq<Seq<char>>, i: int, st: ArgsView) -> Option<ArgsView>
    decreases args.len() - i,
{
    if i < 0 || i >= args.len() {
        Some(st)
    } else {
        let a = args[i];
        if a == "-k"@ || a == "--keep"@ {
            args_scan(args, i + 1, ArgsView { keep: true, ..st })
        } else if a == "-f"@ || a == "--force"@ {
            args_scan(args, i + 1, ArgsView { force: true, ..st })
        } else if a == "-c"@ || a == "--stdout"@ {
            args_scan(args, i + 1, ArgsView { stdout: true, ..st })
        } else if a == "-d"@ || a == "--decompress"@ {
            args_scan(args, i + 1, ArgsView { decompress: true, ..st })
        } else if a == "-h"@ || a == "--help"@ {
            None
        } else if a.len() > 0 && a[0] == '-' {
            args_scan(args, i + 1, st)
        } else {
            args_scan(args, i + 1, ArgsView { files: st.files.push(a), ..st })
        }
    }
}

/// Reads the options of an invocation; `None` where help was asked for.
pub fn parse_args(args: &[String]) -> (r: Option<GzipArgs>)
    ensures
        match r {
            Some(a) => args_scan(views(args@), 0, args_start()) == Some(a@),
            None => args_scan(views(args@), 0, args_start()) is None,
        },
{
    let ghost av = views(args@);
    let cs = chars_of_all(args);
    let n = args.len();
    let mut st = GzipArgs {
        keep: false,
        force: false,
        stdout: false,
        decompress: false,
        files: Vec::new(),
    };
    assert(views(st.files@) =~= Seq::<Seq<char>>::empty());
    assert(st@ =~= args_start());
    let mut i: usize = 0;
    while i < n
        invariant
            n == args@.len(),
            cs@.len() == n,
            av == views(args@),
            forall|k: int| 0 <= k < n ==> #[trigger] cs@[k]@ == args@[k]@,
            i <= n,
            args_scan(av, i as int, st@) == args_scan(av, 0, args_start()),
        decreases n - i,
    {
        let a = cs[i].as_slice();
        assert(av[i as int] == a@);
        if eq_lit(a, "-k") || eq_lit(a, "--keep") {
            st.keep = true;
        } else if eq_lit(a, "-f") || eq_lit(a, "--force") {
            st.force = true;
        } else if eq_lit(a, "-c") || eq_lit(a, "--stdout") {
            st.stdout = true;
        } else if eq_lit(a, "-d") || eq_lit(a, "--decompress") {
            st.decompress = true;
        } else if eq_lit(a, "-h") || eq_lit(a, "--help") {
            return None;
        } else if a.len() > 0 && a[0] == '-' {
        } else {
            let ghost before = views(st.files@);
            st.files.push(args[i].clone());
            assert(views(st.files@) =~= before.push(a@));
        }
        i = i + 1;
    }
    Some(st)
}

/// A file that already ends with `.gz` is left alone unless `-f` is given.
pub fn skip_file(name: &str, force: bool) -> (r: bool)
    ensures
        r == (ends_with(name@, ".gz"@) && !force),
{
    ends_with_lit(chars_of(name).as_slice(), ".gz") && !force
}

/// The name of the compressed file: the name with `.gz` added.
pub fn output_name(name: &str) -> (r: String)
    ensures
        r@ == name@ + ".gz"@,
{
    let c = concat(chars_of(name).as_slice(), chars_of(".gz").as_slice());
    crate::text::string_of(c.as_slice())
}

// ---------------------------------------------------------------------------
// CRC-32
// ---------------------------------------------------------------------------

/// One bit of the reflected CRC-32 (polynomial `0xEDB88320`).
pub open spec fn crc_bit(c: u32) -> u32 {
    if c & 1 != 0 {
        (c >> 1) ^ 0xEDB88320u32
    } else {
        c >> 1
    }
}

/// `n` bits of the CRC.
pub open spec fn crc_bits(c: u32, n: nat) -> u32
    decreases n,
{
    if n == 0 {
        c
    } else {
        crc_bit(crc_bits(c, (n - 1) as nat))
    }
}

/// The CRC register after one more byte.
pub open spec fn crc_byte(c: u32, b: u8) -> u32 {
    crc_bits(c ^ (b as u32), 8)
}

/// The CRC register after the bytes `s`.
pub open spec fn crc_update(c: u32, s: Seq<u8>) -> u32
    decreases s.len(),
{
    if s.len() == 0 {
        c
    } else {
        crc_byte(crc_update(c, s.drop_last()), s.last())
    }
}

/// The CRC-32 of `s` (as in gzip and zlib): the register starts all ones
/// and ends inverted.
pub open spec fn crc32_spec(s: Seq<u8>) -> u32 {
    !crc_update(0xFFFF_FFFFu32, s)
}

fn crc_byte_exec(c: u32, b: u8) -> (r: u32)
    ensures
        r == crc_byte(c, b),
{
    let start = c ^ (b as u32);
    let mut crc = start;
    let mut k: u32 = 0;
    while k < 8
        invariant
            k <= 8,
            crc == crc_bits(start, k as nat),
        decreases 8 - k,
    {
        if crc & 1 != 0 {
            crc = (crc >> 1) ^ 0xEDB88320u32;
        } else {
            crc = crc >> 1;
        }
        k = k + 1;
    }
    crc
}

/// The CRC-32 of `data`.
pub fn crc32(data: &[u8]) -> (r: u32)
    ensures
        r == crc32_spec(data@),
{
    let mut crc: u32 = 0xFFFF_FFFF;
    let mut i: usize = 0;
    while i < data.len()
        invariant
            i <= data@.len(),
            crc == crc_update(0xFFFF_FFFFu32, data@.take(i as int)),
        decreases data@.len() - i,
    {
        assert(data@.take(i + 1).drop_last() =~= data@.take(i as int));
        crc = crc_byte_exec(crc, data[i]);
        i = i + 1;
    }
    assert(data@.take(data@.len() as int) =~= data@);
    !crc
}

// ---------------------------------------------------------------------------
// The gzip stream
// ---------------------------------------------------------------------------

/// `v` as two bytes, least significant first.
pub open spec fn le16(v: nat) -> Seq<u8> {
    seq![(v % 256) as u8, ((v / 256) % 256) as u8]
}

/// `v` as four bytes, least significant first.
pub open spec fn le32(v: nat) -> Seq<u8> {
    seq![
        (v % 256) as u8,
        ((v / 256) % 256) as u8,
        ((v / 65536) % 256) as u8,
        ((v / 16777216) % 256) as u8,
    ]
}

/// The gzip header: magic, DEFLATE, no flags, no time, Unix.
pub open spec fn gzip_header() -> Seq<u8> {
    seq![0x1fu8, 0x8bu8, 0x08u8, 0x00u8, 0u8, 0u8, 0u8, 0u8, 0x00u8, 0x03u8]
}

/// The size of the stored block at `off`: the rest of the data, at most
/// 65535 bytes.
pub open spec fn block_size(len: nat, off: nat) -> nat {
    if len - off < 65535 {
        (len - off) as nat
    } else {
        65535
    }
}

/// The stored blocks holding `data[off..]`: each a final-block flag (1 on
/// the last block, else 0), its length and that length's complement, and
/// its bytes.
pub open spec fn stored_blocks(data: Seq<u8>, off: nat) -> Seq<u8>
    decreases data.len() - off,
{
    if off >= data.len() {
        seq![]
    } else {
        let n = block_size(data.len(), off);
        let last = off + n >= data.len();
        seq![
            if last {
                1u8
            } else {
                0u8
            },
        ] + le16(n) + le16((65535 - n) as nat) + data.subrange(off as int, (off + n) as int)
            + stored_blocks(data, off + n)
    }
}

/// The DEFLATE part: the stored blocks, or one empty final block for no
/// data.
pub open spec fn deflate_stored(data: Seq<u8>) -> Seq<u8> {
    if data.len() == 0 {
        seq![0x01u8, 0u8, 0u8, 0xffu8, 0xffu8]
    } else {
        stored_blocks(data, 0)
    }
}

/// The gzip stream of `data` without compression: header, stored blocks,
/// CRC-32 and the length modulo 2^32.
pub open spec fn gzip_spec(data: Seq<u8>) -> Seq<u8> {
    gzip_header() + deflate_stored(data) + le32(crc32_spec(data) as nat) + le32(
        data.len() % 0x1_0000_0000,
    )
}

fn push_le16(out: &mut Vec<u8>, v: u32)
    requires
        v <= 65535,
    ensures
        final(out)@ == old(out)@ + le16(v as nat),
{
    out.push((v % 256) as u8);
    out.push(((v / 256) % 256) as u8);
    assert(final(out)@ =~= old(out)@ + le16(v as nat)) by {
        assert(out@ =~= old(out)@ + le16(v as nat));
    }
}

fn push_le32(out: &mut Vec<u8>, v: u32)
    ensures
        final(out)@ == old(out)@ + le32(v as nat),
{
    out.push((v % 256) as u8);
    out.push(((v / 256) % 256) as u8);
    out.push(((v / 65536) % 256) as u8);
    out.push(((v / 16777216) % 256) as u8);
    assert(out@ =~= old(out)@ + le32(v as nat));
}

/// The gzip stream of `data` (see `gzip_spec`).
pub fn gzip_stored(data: &[u8]) -> (r: Vec<u8>)
    ensures
        r@ == gzip_spec(data@),
{
    let mut out: Vec<u8> = Vec::new();
    out.push(0x1f);
    out.push(0x8b);
    out.push(0x08);
    out.push(0x00);
    out.push(0);
    out.push(0);
    out.push(0);
    out.push(0);
    out.push(0x00);
    out.push(0x03);
    assert(out@ =~= gzip_header());
    let len = data.len();
    let mut offset: usize = 0;
    while offset < len
        invariant
            len == data@.len(),
            offset <= len,
            out@ + stored_blocks(data@, offset as nat) == gzip_header() + stored_blocks(data@, 0),
        decreases len - offset,
    {
        let remaining = len - offset;
        let bs: usize = if remaining < 65535 {
            remaining
        } else {
            65535
        };
        let is_last = offset + bs >= len;
        let ghost before = out@;
        out.push(
            if is_last {
                1u8
            } else {
                0u8
            },
        );
        push_le16(&mut out, bs as u32);
        push_le16(&mut out, (65535 - bs) as u32);
        let mut k: usize = offset;
        let ghost mid = out@;
        while k < offset + bs
            invariant
                offset <= k <= offset + bs <= len,
                len == data@.len(),
                out@ == mid + data@.subrange(offset as int, k as int),
            decreases offset + bs - k,
        {
            out.push(data[k]);
            k = k + 1;
            assert(out@ =~= mid + data@.subrange(offset as int, k as int));
        }
        assert(out@ + stored_blocks(data@, (offset + bs) as nat) =~= before + stored_blocks(
            data@,
            offset as nat,
        ));
        offset = offset + bs;
    }
    assert(stored_blocks(data@, len as nat) =~= Seq::<u8>::empty());
    if len == 0 {
        out.push(0x01);
        out.push(0);
        out.push(0);
        out.push(0xff);
        out.push(0xff);
    }
    assert(out@ =~= gzip_header() + deflate_stored(data@));
    let crc = crc32(data);
    push_le32(&mut out, crc);
    push_le32(&mut out, (len as u64 % 0x1_0000_0000) as u32);
    out
}

// ---------------------------------------------------------------------------
// Reading stored blocks back
// ---------------------------------------------------------------------------

/// The data held in a DEFLATE stream made only of stored blocks, read
/// from `pos`: each block's header byte (final flag in bit 0, type 0 in
/// bits 1-2), its length and complement, then its bytes, until the final
/// block. `None` where the stream is not such.
pub open spec fn read_stored(s: Seq<u8>, pos: nat) -> Option<Seq<u8>>
    decreases s.len() - pos,
{
    if pos + 5 > s.len() {
        None
    } else {
        let p = pos as int;
        let h = s[p];
        let n = s[p + 1] as nat + 256 * (s[p + 2] as nat);
        let nc = s[p + 3] as nat + 256 * (s[p + 4] as nat);
        if (h != 0 && h != 1) || n + nc != 65535 || pos + 5 + n > s.len() {
            None
        } else {
            let payload = s.subrange(p + 5, p + 5 + n);
            if h == 1 {
                Some(payload)
            } else {
                match read_stored(s, pos + 5 + n) {
                    Some(rest) => Some(payload + rest),
                    None => None,
                }
            }
        }
    }
}

proof fn lemma_le16(n: nat)
    requires
        n <= 65535,
    ensures
        le16(n)[0] as nat + 256 * (le16(n)[1] as nat) == n,
{
}

/// The first block of a stream whose header says `h` and `n` bytes.
proof fn lemma_read_first(s: Seq<u8>, h: u8, n: nat)
    requires
        h == 0 || h == 1,
        n <= 65535,
        s.len() >= 5 + n,
        s[0] == h,
        s[1] == le16(n)[0],
        s[2] == le16(n)[1],
        s[3] == le16((65535 - n) as nat)[0],
        s[4] == le16((65535 - n) as nat)[1],
    ensures
        read_stored(s, 0) == if h == 1 {
            Some(s.subrange(5, 5 + n as int))
        } else {
            match read_stored(s, (5 + n) as nat) {
                Some(rest) => Some(s.subrange(5, 5 + n as int) + rest),
                None => None,
            }
        },
{
    lemma_le16(n);
    lemma_le16((65535 - n) as nat);
}

proof fn lemma_read_blocks(data: Seq<u8>, off: nat, tail: Seq<u8>)
    requires
        off < data.len(),
    ensures
        read_stored(stored_blocks(data, off) + tail, 0) == Some(data.skip(off as int)),
    decreases data.len() - off,
{
    let n = block_size(data.len(), off);
    let last = off + n >= data.len();
    let rest = stored_blocks(data, off + n);
    let s = stored_blocks(data, off) + tail;
    let h: u8 = if last {
        1u8
    } else {
        0u8
    };
    let head = seq![h] + le16(n) + le16((65535 - n) as nat);
    let payload = data.subrange(off as int, (off + n) as int);
    assert(stored_blocks(data, off) == head + payload + rest);
    assert(s =~= head + payload + (rest + tail));
    assert(s[0] == h && s[1] == le16(n)[0] && s[2] == le16(n)[1]);
    assert(s[3] == le16((65535 - n) as nat)[0] && s[4] == le16((65535 - n) as nat)[1]);
    assert(s.subrange(5, 5 + n as int) =~= payload);
    lemma_read_first(s, h, n);
    if last {
        assert(data.skip(off as int) =~= payload);
    } else {
        lemma_read_blocks(data, off + n, tail);
        assert(s.skip(5 + n as int) =~= rest + tail);
        lemma_read_shift(s, rest + tail, (5 + n) as nat);
        assert(data.skip(off as int) =~= payload + data.skip((off + n) as int));
    }
}

/// Reading from position `k` of `s` is reading its tail `t` from 0.
proof fn lemma_read_shift(s: Seq<u8>, t: Seq<u8>, k: nat)
    requires
        k <= s.len(),
        s.skip(k as int) == t,
    ensures
        read_stored(s, k) == read_stored(t, 0),
    decreases t.len(),
{
    if k + 5 <= s.len() {
        let ki = k as int;
        let n = s[ki + 1] as nat + 256 * (s[ki + 2] as nat);
        let nc = s[ki + 3] as nat + 256 * (s[ki + 4] as nat);
        assert(t[0] == s[ki] && t[1] == s[ki + 1] && t[2] == s[ki + 2]);
        assert(t[3] == s[ki + 3] && t[4] == s[ki + 4]);
        if n + nc == 65535 && k + 5 + n <= s.len() {
            assert(t.subrange(5, 5 + n as int) =~= s.subrange(ki + 5, ki + 5 + n));
            if s[ki] == 0 {
                assert(t.skip(5 + n as int) =~= s.skip(ki + 5 + n));
                lemma_read_shift(s, s.skip(ki + 5 + n), (k + 5 + n) as nat);
                lemma_read_shift(t, t.skip(5 + n as int), (5 + n) as nat);
            }
        }
    }
}

/// Law: the stored blocks that gzip writes give the data back, whatever
/// follows them.
pub proof fn lemma_stored_round_trip(data: Seq<u8>, tail: Seq<u8>)
    ensures
        read_stored(deflate_stored(data) + tail, 0) == Some(data),
{
    if data.len() == 0 {
        let s = deflate_stored(data) + tail;
        assert(s[0] == 1u8 && s[1] == 0u8 && s[2] == 0u8 && s[3] == 0xffu8 && s[4] == 0xffu8);
        assert(s.subrange(5, 5) =~= data);
    } else {
        lemma_read_blocks(data, 0, tail);
        assert(data.skip(0) =~= data);
    }
}

/// Law: a gzip stream starts with the header, and its last eight bytes are
/// the CRC-32 of the data and the data's length modulo 2^32.
pub proof fn lemma_gzip_frame(data: Seq<u8>)
    ensures
        gzip_spec(data).take(10) == gzip_header(),
        gzip_spec(data).skip(gzip_spec(data).len() - 8) == le32(crc32_spec(data) as nat) + le32(
            data.len() % 0x1_0000_0000,
        ),
        read_stored(gzip_spec(data).skip(10), 0) == Some(data),
{
    let g = gzip_spec(data);
    let tail = le32(crc32_spec(data) as nat) + le32(data.len() % 0x1_0000_0000);
    assert(g =~= gzip_header() + (deflate_stored(data) + tail));
    assert(g.take(10) =~= gzip_header());
    assert(g.skip(g.len() - 8) =~= tail);
    assert(g.skip(10) =~= deflate_stored(data) + tail);
    lemma_stored_round_trip(data, tail);
}

} // verus!
