//! Native reading of a FLAC file's comment block, byte by byte: the
//! container signature, the metadata block headers, and the comment list
//! itself.  The surrounding program does the file I/O — it reads the
//! signature, walks the block headers with [`parse_block_header`], and
//! hands the comment block's bytes to [`VorbisCommentCustom`]; every
//! decision about those bytes is made and proved here.

use vstd::prelude::*;

use vstd::utf8::{decode_utf8, valid_utf8};

verus! {

/// Why reading a comment block failed.  The I/O and encoding variants
/// carry plain text: the underlying error values belong to the caller's
/// layer.
#[derive(Debug)]
pub enum Error {
    /// An I/O failure, rendered as text by the caller.
    IoError(String),
    /// The comment bytes are not valid UTF-8.
    Utf8Error,
    /// A comment holds no `=` separator; carries the comment's text.
    MalformedVorbisComment(String),
    /// The file does not start with the container signature; carries the
    /// path.
    InvalidFlacHeader(String),
}

/// The unsigned number a little-endian 4-byte field holds.
pub open spec fn spec_le_u32(s: Seq<u8>) -> int {
    s[0] + s[1] * 0x100 + s[2] * 0x1_0000 + s[3] * 0x100_0000
}

/// Reads a little-endian 4-byte field.
pub fn read_le_u32(bytes: &Vec<u8>, at: usize) -> (v: u32)
    requires
        at + 4 <= bytes@.len(),
    ensures
        v == spec_le_u32(bytes@.subrange(at as int, at + 4)),
{
    let n = bytes.len();
    let b0 = bytes[at] as u32;
    let b1 = bytes[at + 1] as u32;
    let b2 = bytes[at + 2] as u32;
    let b3 = bytes[at + 3] as u32;
    let ghost s = bytes@.subrange(at as int, at + 4);
    assert(s[0] == bytes@[at as int] && s[1] == bytes@[at + 1] && s[2] == bytes@[at + 2] && s[3]
        == bytes@[at + 3]);
    b0 + b1 * 0x100 + b2 * 0x1_0000 + b3 * 0x100_0000
}

/// Whether four bytes are the container signature `fLaC`.
pub fn is_flac_marker(ident: &[u8]) -> (r: bool)
    requires
        ident@.len() == 4,
    ensures
        r == (ident@[0] == 0x66 && ident@[1] == 0x4c && ident@[2] == 0x61 && ident@[3] == 0x43),
{
    ident[0] == 0x66 && ident[1] == 0x4c && ident[2] == 0x61 && ident[3] == 0x43
}

/// One metadata block header: the last-block flag, the block type, and the
/// 24-bit length of the block that follows.
pub struct BlockHeader {
    pub is_last: bool,
    pub block_type: u8,
    pub length: u32,
}

/// Parses a 4-byte metadata block header: the top bit of the first byte
/// flags the last block, its low seven bits give the type, and the other
/// three bytes give the block length, big-endian.
pub fn parse_block_header(buf: &[u8]) -> (h: BlockHeader)
    requires
        buf@.len() == 4,
    ensures
        h.is_last == (buf@[0] >= 128),
        h.block_type == buf@[0] % 128,
        h.length == buf@[1] * 0x1_0000 + buf@[2] * 0x100 + buf@[3],
{
    let b0 = buf[0];
    BlockHeader {
        is_last: b0 >= 128,
        block_type: b0 % 128,
        length: (buf[1] as u32) * 0x1_0000 + (buf[2] as u32) * 0x100 + (buf[3] as u32),
    }
}

/// Relies on `str::from_utf8`: succeeds exactly on valid UTF-8 and decodes
/// those bytes, and no others.
#[verifier::external_body]
fn bytes_to_str(b: &[u8]) -> (r: Option<&str>)
    ensures
        r is Some <==> valid_utf8(b@),
        r is Some ==> r->0@ == decode_utf8(b@),
{
    std::str::from_utf8(b).ok()
}

/// `eq` is the position of the first `=` at or after `from` in `s`, or the
/// length when none follows.
pub open spec fn is_first_eq_from(s: Seq<char>, from: int, eq: int) -> bool {
    &&& from <= eq <= s.len()
    &&& (eq < s.len() ==> s[eq] == '=')
    &&& forall|j: int| from <= j < eq ==> s[j] != '='
}

/// Splits one comment's bytes at its separators: the key is everything
/// before the first `=`, the value everything between the first and the
/// second.  Fails when the bytes are not UTF-8, or no `=` occurs.
pub fn read_vorbis_comment(bytes: &[u8]) -> (r: Result<(&str, &str), Error>)
    ensures
        (match r {
            Ok((key, value)) => {
                let s = decode_utf8(bytes@);
                &&& valid_utf8(bytes@)
                &&& exists|eq1: int, eq2: int|
                    {
                        &&& #[trigger] is_first_eq_from(s, 0, eq1)
                        &&& eq1 < s.len()
                        &&& #[trigger] is_first_eq_from(s, eq1 + 1, eq2)
                        &&& key@ == s.take(eq1)
                        &&& value@ == s.subrange(eq1 + 1, eq2)
                    }
            },
            Err(e) => match e {
                Error::Utf8Error => !valid_utf8(bytes@),
                Error::MalformedVorbisComment(t) => valid_utf8(bytes@) && t@ == decode_utf8(
                    bytes@,
                ) && (forall|j: int|
                    0 <= j < decode_utf8(bytes@).len() ==> decode_utf8(bytes@)[j] != '='),
                _ => false,
            },
        }),
{
    let comments = match bytes_to_str(bytes) {
        Some(s) => s,
        None => {
            return Err(Error::Utf8Error);
        },
    };
    let n = comments.unicode_len();
    let eq1 = find_eq(comments, 0);
    if eq1 >= n {
        return Err(Error::MalformedVorbisComment(comments.to_owned()));
    }
    let eq2 = find_eq(comments, eq1 + 1);
    let key = comments.substring_char(0, eq1);
    let value = comments.substring_char(eq1 + 1, eq2);
    proof {
        assert(key@ =~= comments@.take(eq1 as int));
        assert(value@ =~= comments@.subrange(eq1 + 1, eq2 as int));
    }
    Ok((key, value))
}

/// The position of the first `=` at or after `from`, or the length when
/// none follows.
fn find_eq(s: &str, from: usize) -> (eq: usize)
    requires
        from <= s@.len(),
    ensures
        is_first_eq_from(s@, from as int, eq as int),
        eq <= s@.len(),
{
    let n = s.unicode_len();
    let mut i: usize = from;
    while i < n
        invariant
            from <= i <= n,
            n == s@.len(),
            forall|j: int| from <= j < i ==> s@[j] != '=',
        decreases n - i,
    {
        if s.get_char(i) == '=' {
            return i;
        }
        i = i + 1;
    }
    i
}

/// A cursor over one comment block's bytes: the file it came from, the
/// comment count read from the block, the byte offset of the current
/// comment, and the one-based index of the current comment.
pub struct VorbisCommentCustom {
    pub path: String,
    pub num_comments: u32,
    pub i: usize,
    pub curr: u32,
}

impl VorbisCommentCustom {
    /// A cursor over no comments, for a file without a comment block.
    pub fn empty(path: String) -> (v: VorbisCommentCustom)
        ensures
            v.path == path,
            v.num_comments == 0,
            v.i == 0,
            v.curr == 0,
    {
        VorbisCommentCustom { path, num_comments: 0, i: 0, curr: 0 }
    }

    /// Whether a comment block's bytes are long enough to read the vendor
    /// field and the comment count, as [`Self::from_bytes`] requires.
    pub fn header_in_bounds(bytes: &Vec<u8>) -> (r: bool)
        ensures
            r == (bytes@.len() >= 8 && 8 + spec_le_u32(bytes@.subrange(0, 4)) <= bytes@.len()),
    {
        if bytes.len() < 8 {
            return false;
        }
        let vendor_length = read_le_u32(bytes, 0);
        (vendor_length as u64) + 8 <= bytes.len() as u64
    }

    /// A cursor at the head of a comment block: skips the vendor field and
    /// reads the comment count.
    pub fn from_bytes(path: String, bytes: &Vec<u8>) -> (v: VorbisCommentCustom)
        requires
            bytes@.len() >= 8,
            8 + spec_le_u32(bytes@.subrange(0, 4)) <= bytes@.len(),
        ensures
            v.path == path,
            v.i == 8 + spec_le_u32(bytes@.subrange(0, 4)),
            v.num_comments == spec_le_u32(bytes@.subrange(v.i - 4, v.i as int)),
            v.curr == 0,
    {
        let n = bytes.len();
        let vendor_length = read_le_u32(bytes, 0) as usize;
        let num_comments = read_le_u32(bytes, 4 + vendor_length);
        VorbisCommentCustom { path, num_comments, i: 8 + vendor_length, curr: 0 }
    }

    /// Whether the block's bytes are long enough to read the current
    /// comment, as [`Self::cur`] requires when a comment is pending.
    pub fn cur_in_bounds(&self, bytes: &Vec<u8>) -> (r: bool)
        ensures
            r == (self.i + 4 <= bytes@.len() && self.i + 4 + spec_le_u32(
                bytes@.subrange(self.i as int, self.i + 4),
            ) <= bytes@.len()),
    {
        if self.i > bytes.len() || bytes.len() - self.i < 4 {
            return false;
        }
        let comment_length = read_le_u32(bytes, self.i);
        (comment_length as u64) <= ((bytes.len() - self.i) - 4) as u64
    }

    /// The current comment, split into key and value, or `None` once the
    /// cursor has moved past the last comment.
    pub fn cur<'a, 'b>(&'a self, bytes: &'b Vec<u8>) -> (r: Result<
        Option<(&'a str, &'b str, &'b str)>,
        Error,
    >)
        requires
            self.curr <= self.num_comments ==> self.i + 4 <= bytes@.len() && self.i + 4
                + spec_le_u32(bytes@.subrange(self.i as int, self.i + 4)) <= bytes@.len(),
        ensures
            self.curr > self.num_comments ==> r == Ok::<
                Option<(&'a str, &'b str, &'b str)>,
                Error,
            >(None),
            self.curr <= self.num_comments ==> (match r {
                Ok(Some((p, key, value))) => {
                    let seg = bytes@.subrange(
                        self.i + 4,
                        self.i + 4 + spec_le_u32(bytes@.subrange(self.i as int, self.i + 4)),
                    );
                    let s = decode_utf8(seg);
                    &&& p@ == self.path@
                    &&& valid_utf8(seg)
                    &&& exists|eq1: int, eq2: int|
                        {
                            &&& #[trigger] is_first_eq_from(s, 0, eq1)
                            &&& eq1 < s.len()
                            &&& #[trigger] is_first_eq_from(s, eq1 + 1, eq2)
                            &&& key@ == s.take(eq1)
                            &&& value@ == s.subrange(eq1 + 1, eq2)
                        }
                },
                Ok(None) => false,
                Err(_) => true,
            }),
    {
        if self.curr <= self.num_comments {
            let n = bytes.len();
            let comment_length = read_le_u32(bytes, self.i) as usize;
            let segment = &bytes.as_slice()[self.i + 4..self.i + 4 + comment_length];
            proof {
                assert(segment@ =~= bytes@.subrange(
                    self.i + 4,
                    self.i + 4 + spec_le_u32(bytes@.subrange(self.i as int, self.i + 4)),
                ));
            }
            match read_vorbis_comment(segment) {
                Ok((key, value)) => Ok(Some((self.path.as_str(), key, value))),
                Err(e) => Err(e),
            }
        } else {
            Ok(None)
        }
    }

    /// Advances the cursor to the next comment: returns whether one is
    /// available, stepping the byte offset past the current comment.
    pub fn next(&mut self, bytes: &Vec<u8>) -> (more: bool)
        requires
            old(self).curr < u32::MAX,
            (old(self).curr != 0 || old(self).num_comments == 0) && old(self).curr < old(
                self,
            ).num_comments ==> old(self).i + 4 <= bytes@.len() && old(self).i + 4 + spec_le_u32(
                bytes@.subrange(old(self).i as int, old(self).i + 4),
            ) <= usize::MAX,
        ensures
            final(self).path == old(self).path,
            final(self).num_comments == old(self).num_comments,
            old(self).curr == 0 && old(self).num_comments != 0 ==> more && final(self).curr == 1
                && final(self).i == old(self).i,
            !(old(self).curr == 0 && old(self).num_comments != 0) && old(self).curr < old(
                self,
            ).num_comments ==> more && final(self).curr == old(self).curr + 1 && final(self).i
                == old(self).i + 4 + spec_le_u32(
                bytes@.subrange(old(self).i as int, old(self).i + 4),
            ),
            !(old(self).curr == 0 && old(self).num_comments != 0) && old(self).curr >= old(
                self,
            ).num_comments ==> !more && final(self).curr == old(self).curr + 1 && final(self).i
                == old(self).i,
    {
        if self.curr == 0 && self.num_comments != 0 {
            self.curr = 1;
            true
        } else if self.curr < self.num_comments {
            let n = bytes.len();
            self.curr = self.curr + 1;
            let step = read_le_u32(bytes, self.i) as usize;
            self.i = self.i + 4 + step;
            true
        } else {
            self.curr = self.curr + 1;
            false
        }
    }
}

} // verus!
