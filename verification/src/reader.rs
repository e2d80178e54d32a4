//! A bounded random-access cursor over an immutable byte buffer.
//!
//! The reader owns the buffer for the duration of a decode. The cursor may
//! transiently point past the end of the buffer (after `move_to` or `jump`);
//! every read checks bounds and fails with `OutOfBounds` instead of reading
//! past the end.

use vstd::prelude::*;

verus! {

/// Failures of the byte reader and of the decoders layered on top of it.
#[derive(Debug, Clone, PartialEq, Eq)]
pub enum ByteReaderError {
    /// An attempted read or slice extends past the buffer.
    OutOfBounds { length: usize, start: usize, end: usize },
    /// A `find` operation exhausted the buffer without locating the pattern.
    NotFound { sequence: Vec<u8> },
    /// A string decode saw ill-formed UTF-8.
    InvalidUtf8,
    /// A LEB128 value exceeded the target width.
    DecodeOverflow,
    /// Input ended mid-LEB128 or mid-expression.
    DecodeTruncated,
    /// A typed decode met an unexpected byte where a variant tag was expected.
    InvalidSectionBody,
    /// An opcode byte or a `0xFC` sub-opcode outside the recognized set.
    UnknownOpcode,
}

/// Byte order used by the fixed-width numeric decoders.
#[derive(Debug, Clone, Copy, PartialEq, Eq, Structural)]
pub enum Endian {
    Little,
    Big,
}

/// The mathematical state of a [`ByteReader`]: the buffer contents, the
/// cursor, the stack of saved cursor positions, and the configuration.
#[verifier::ext_equal]
pub ghost struct ReaderView {
    pub bytes: Seq<u8>,
    pub pos: nat,
    pub saved: Seq<nat>,
    pub endian: Endian,
    pub debug: bool,
}

impl ReaderView {
    /// The bytes from the cursor to the end of the buffer; empty when the
    /// cursor points past the end.
    pub open spec fn rest(self) -> Seq<u8> {
        if self.pos <= self.bytes.len() {
            self.bytes.skip(self.pos as int)
        } else {
            Seq::empty()
        }
    }

    /// The cursor lies inside the buffer (reads may still fail for length).
    pub open spec fn in_bounds(self) -> bool {
        self.pos <= self.bytes.len()
    }

    /// Everything but the cursor and the save stack agrees with `other`.
    pub open spec fn same_buffer(self, other: ReaderView) -> bool {
        &&& self.bytes == other.bytes
        &&& self.endian == other.endian
        &&& self.debug == other.debug
    }

    /// The buffer and the save stack agree with `other`; only the cursor may
    /// differ.
    pub open spec fn same_except_pos(self, other: ReaderView) -> bool {
        &&& self.same_buffer(other)
        &&& self.saved == other.saved
    }
}

/// Pattern `pat` occurs in `bytes` at absolute offset `i`.
pub open spec fn match_at(bytes: Seq<u8>, pat: Seq<u8>, i: int) -> bool {
    &&& 0 <= i
    &&& i + pat.len() <= bytes.len()
    &&& bytes.subrange(i, i + pat.len()) == pat
}

/// The kind of a decode failure, payloads set aside: what a failed decode
/// reports, independent of the buffer positions an `OutOfBounds` or the
/// pattern a `NotFound` carries.
pub ghost enum DecodeFailure {
    OutOfBounds,
    NotFound,
    InvalidUtf8,
    Overflow,
    Truncated,
    InvalidTag,
    UnknownOpcode,
}

/// The kind of an error.
pub open spec fn failure_of(e: ByteReaderError) -> DecodeFailure {
    match e {
        ByteReaderError::OutOfBounds { .. } => DecodeFailure::OutOfBounds,
        ByteReaderError::NotFound { .. } => DecodeFailure::NotFound,
        ByteReaderError::InvalidUtf8 => DecodeFailure::InvalidUtf8,
        ByteReaderError::DecodeOverflow => DecodeFailure::Overflow,
        ByteReaderError::DecodeTruncated => DecodeFailure::Truncated,
        ByteReaderError::InvalidSectionBody => DecodeFailure::InvalidTag,
        ByteReaderError::UnknownOpcode => DecodeFailure::UnknownOpcode,
    }
}

/// Positioned, bounded access to an immutable byte buffer.
pub struct ByteReader {
    /// The byte buffer.
    data: Vec<u8>,
    /// The current offset (position) in the buffer.
    offset: usize,
    /// Endianness used when reading fixed-width numbers.
    endian: Endian,
    /// LIFO stack of offsets saved by `push_index`, restored by `pop_index`.
    push_offsets: Vec<usize>,
    /// Verbose-diagnostics flag; carried but never acted on here.
    debug: bool,
}

impl View for ByteReader {
    type V = ReaderView;

    closed spec fn view(&self) -> ReaderView {
        ReaderView {
            bytes: self.data@,
            pos: self.offset as nat,
            saved: self.push_offsets@.map_values(|o: usize| o as nat),
            endian: self.endian,
            debug: self.debug,
        }
    }
}

impl ByteReader {
    /// A reader over a copy of `vec`, cursor at the start, little-endian.
    pub fn from_vec(vec: &[u8]) -> (r: Self)
        ensures
            r@.bytes == vec@,
            r@.pos == 0,
            r@.saved == Seq::<nat>::empty(),
            r@.endian == Endian::Little,
            !r@.debug,
    {
        let r = Self {
            data: vstd::slice::slice_to_vec(vec),
            offset: 0,
            endian: Endian::Little,
            push_offsets: Vec::new(),
            debug: false,
        };
        proof {
            assert(r@.saved =~= Seq::<nat>::empty());
        }
        r
    }

    /// Toggle verbose diagnostics; the flag has no observable effect here.
    pub fn set_debug(&mut self, debug: bool)
        ensures
            final(self)@ == (ReaderView { debug, ..old(self)@ }),
    {
        self.debug = debug;
    }

    /// Choose the byte order for subsequent fixed-width reads.
    pub fn set_endian(&mut self, endian: Endian)
        ensures
            final(self)@ == (ReaderView { endian, ..old(self)@ }),
    {
        self.endian = endian;
    }

    /// Reposition the cursor absolutely. No clamping is performed: an
    /// out-of-range cursor may exist transiently, but any subsequent read
    /// fails.
    pub fn move_to(&mut self, offset: usize)
        ensures
            final(self)@ == (ReaderView { pos: offset as nat, ..old(self)@ }),
    {
        self.offset = offset;
    }

    /// Advance the cursor by `jump_by` without reading.
    pub fn jump(&mut self, jump_by: usize)
        requires
            old(self)@.pos + jump_by <= usize::MAX,
        ensures
            final(self)@ == (ReaderView { pos: (old(self)@.pos + jump_by) as nat, ..old(self)@ }),
    {
        self.offset = self.offset + jump_by;
    }

    /// Save the current cursor on the LIFO stack.
    pub fn push_index(&mut self)
        ensures
            final(self)@ == (ReaderView { saved: old(self)@.saved.push(old(self)@.pos), ..old(self)@ }),
    {
        self.push_offsets.push(self.offset);
        proof {
            assert(self@.saved =~= old(self)@.saved.push(old(self)@.pos));
        }
    }

    /// Restore the cursor to the most recently pushed offset; a no-op when
    /// the stack is empty.
    pub fn pop_index(&mut self)
        ensures
            old(self)@.saved.len() > 0 ==> final(self)@ == (ReaderView {
                pos: old(self)@.saved.last(),
                saved: old(self)@.saved.drop_last(),
                ..old(self)@
            }),
            old(self)@.saved.len() == 0 ==> final(self)@ == old(self)@,
    {
        if let Some(offset) = self.push_offsets.pop() {
            self.offset = offset;
        }
        proof {
            if old(self)@.saved.len() > 0 {
                assert(self@.saved =~= old(self)@.saved.drop_last());
            }
        }
    }

    /// The length of the underlying buffer.
    pub fn get_file_length(&self) -> (r: usize)
        ensures
            r == self@.bytes.len(),
    {
        self.data.len()
    }

    /// The current cursor position.
    pub fn get_current_offset(&self) -> (r: usize)
        ensures
            r == self@.pos,
    {
        self.offset
    }

    /// Consume `n` bytes and return them; fails with `OutOfBounds` (leaving
    /// the cursor unchanged) when fewer than `n` bytes remain.
    pub fn read_bytes(&mut self, bytes: usize) -> (r: Result<Vec<u8>, ByteReaderError>)
        ensures
            final(self)@.same_except_pos(old(self)@),
            old(self)@.pos + bytes <= old(self)@.bytes.len() ==> {
                &&& final(self)@.pos == old(self)@.pos + bytes
                &&& (r matches Ok(v)
                    && v@ == old(self)@.bytes.subrange(old(self)@.pos as int, old(self)@.pos + bytes))
            },
            old(self)@.pos + bytes > old(self)@.bytes.len() ==> {
                &&& final(self)@.pos == old(self)@.pos
                &&& (r matches Err(e) && e matches ByteReaderError::OutOfBounds {
                    length, start, end
                } && length == old(self)@.bytes.len() && start == old(self)@.pos
                    && end == if old(self)@.pos + bytes <= usize::MAX {
                        old(self)@.pos + bytes
                    } else {
                        usize::MAX as int
                    })
            },
    {
        let len = self.data.len();
        if self.offset > len || bytes > len - self.offset {
            let end = if bytes <= usize::MAX - self.offset {
                self.offset + bytes
            } else {
                usize::MAX
            };
            return Err(ByteReaderError::OutOfBounds { length: len, start: self.offset, end });
        }

        let mut out: Vec<u8> = Vec::new();
        let mut i: usize = 0;
        while i < bytes
            invariant
                self@ == old(self)@,
                i <= bytes,
                self@.pos + bytes <= self@.bytes.len(),
                self@.bytes.len() <= usize::MAX,
                out@ == self@.bytes.subrange(self@.pos as int, self@.pos + i),
            decreases bytes - i,
        {
            out.push(self.data[self.offset + i]);
            i = i + 1;
            proof {
                assert(out@ =~= self@.bytes.subrange(self@.pos as int, self@.pos + i));
            }
        }
        self.offset = self.offset + bytes;
        Ok(out)
    }

    /// The `n` bytes at the cursor, without advancing it.
    pub fn peak_bytes(&self, bytes: usize) -> (r: Result<Vec<u8>, ByteReaderError>)
        ensures
            self@.pos + bytes <= self@.bytes.len() ==> (r matches Ok(v)
                && v@ == self@.bytes.subrange(self@.pos as int, self@.pos + bytes)),
            self@.pos + bytes > self@.bytes.len() ==> (r matches Err(e)
                && e matches ByteReaderError::OutOfBounds { length, start, end }
                && length == self@.bytes.len() && start == self@.pos
                && end == if self@.pos + bytes <= usize::MAX {
                    self@.pos + bytes
                } else {
                    usize::MAX as int
                }),
    {
        let len = self.data.len();
        if self.offset > len || bytes > len - self.offset {
            let end = if bytes <= usize::MAX - self.offset {
                self.offset + bytes
            } else {
                usize::MAX
            };
            return Err(ByteReaderError::OutOfBounds { length: len, start: self.offset, end });
        }

        let mut out: Vec<u8> = Vec::new();
        let mut i: usize = 0;
        while i < bytes
            invariant
                i <= bytes,
                self@.pos + bytes <= self@.bytes.len(),
                self@.bytes.len() <= usize::MAX,
                out@ == self@.bytes.subrange(self@.pos as int, self@.pos + i),
            decreases bytes - i,
        {
            out.push(self.data[self.offset + i]);
            i = i + 1;
            proof {
                assert(out@ =~= self@.bytes.subrange(self@.pos as int, self@.pos + i));
            }
        }
        Ok(out)
    }

    /// Consume `cmp_buffer.len()` bytes and report whether they equal the
    /// pattern. The cursor advances either way; callers that wish to rewind
    /// must push the cursor first.
    pub fn read_expect(&mut self, cmp_buffer: &[u8]) -> (r: Result<bool, ByteReaderError>)
        ensures
            final(self)@.same_except_pos(old(self)@),
            old(self)@.pos + cmp_buffer@.len() <= old(self)@.bytes.len() ==> {
                &&& final(self)@.pos == old(self)@.pos + cmp_buffer@.len()
                &&& (r matches Ok(b) && b == (old(self)@.bytes.subrange(
                    old(self)@.pos as int,
                    old(self)@.pos + cmp_buffer@.len() as int,
                ) == cmp_buffer@))
            },
            old(self)@.pos + cmp_buffer@.len() > old(self)@.bytes.len() ==> {
                &&& final(self)@.pos == old(self)@.pos
                &&& (r matches Err(e) && e matches ByteReaderError::OutOfBounds { .. })
            },
    {
        let bytes = match self.read_bytes(cmp_buffer.len()) {
            Ok(v) => v,
            Err(e) => {
                return Err(e);
            },
        };

        let ghost consumed = old(self)@.bytes.subrange(
            old(self)@.pos as int,
            old(self)@.pos + cmp_buffer@.len() as int,
        );
        let mut i: usize = 0;
        while i < cmp_buffer.len()
            invariant
                i <= cmp_buffer@.len(),
                old(self)@.pos + cmp_buffer@.len() <= old(self)@.bytes.len(),
                bytes@.len() == cmp_buffer@.len(),
                bytes@ == consumed,
                consumed == old(self)@.bytes.subrange(
                    old(self)@.pos as int,
                    old(self)@.pos + cmp_buffer@.len() as int,
                ),
                self@.same_except_pos(old(self)@),
                self@.pos == old(self)@.pos + cmp_buffer@.len(),
                forall|j: int| 0 <= j < i ==> bytes@[j] == cmp_buffer@[j],
            decreases cmp_buffer@.len() - i,
        {
            if cmp_buffer[i] != bytes[i] {
                proof {
                    assert(consumed[i as int] != cmp_buffer@[i as int]);
                }
                return Ok(false);
            }
            i = i + 1;
        }
        proof {
            assert(bytes@ =~= cmp_buffer@);
        }
        Ok(true)
    }

    /// Consume every byte from the cursor to the end of the buffer.
    pub fn read_rest(&mut self) -> (r: Result<Vec<u8>, ByteReaderError>)
        ensures
            final(self)@.same_except_pos(old(self)@),
            old(self)@.in_bounds() ==> {
                &&& final(self)@.pos == final(self)@.bytes.len()
                &&& (r matches Ok(v) && v@ == old(self)@.rest())
            },
            !old(self)@.in_bounds() ==> {
                &&& final(self)@.pos == old(self)@.pos
                &&& (r matches Err(e) && e matches ByteReaderError::OutOfBounds { .. })
            },
    {
        let len = self.data.len();
        if self.offset > len {
            return Err(ByteReaderError::OutOfBounds {
                length: len,
                start: self.offset,
                end: self.offset,
            });
        }
        self.read_bytes(len - self.offset)
    }

    /// The bytes from the cursor to the end of the buffer, without advancing.
    pub fn peak_rest(&self) -> (r: Result<Vec<u8>, ByteReaderError>)
        ensures
            self@.in_bounds() ==> (r matches Ok(v) && v@ == self@.rest()),
            !self@.in_bounds() ==> (r matches Err(e)
                && e matches ByteReaderError::OutOfBounds { .. }),
    {
        let len = self.data.len();
        if self.offset > len {
            return Err(ByteReaderError::OutOfBounds {
                length: len,
                start: self.offset,
                end: self.offset,
            });
        }
        self.peak_bytes(len - self.offset)
    }

    /// The least offset `i >= offset` at which `sequence` occurs, scanning
    /// byte by byte; `NotFound` when the buffer is exhausted first.
    pub fn find_from(&self, sequence: &[u8], offset: usize) -> (r: Result<
        usize,
        ByteReaderError,
    >)
        ensures
            match r {
                Ok(i) => {
                    &&& offset <= i
                    &&& match_at(self@.bytes, sequence@, i as int)
                    &&& forall|j: int|
                        offset <= j < i ==> !match_at(self@.bytes, sequence@, j)
                },
                Err(e) => {
                    &&& (e matches ByteReaderError::NotFound { sequence: s } && s@ == sequence@)
                    &&& forall|j: int| offset <= j ==> !match_at(self@.bytes, sequence@, j)
                },
            },
    {
        let bytes = sequence.len();
        let len = self.data.len();
        let mut at: usize = offset;

        while at <= len && bytes <= len - at
            invariant
                offset <= at,
                len == self@.bytes.len(),
                bytes == sequence@.len(),
                forall|j: int| offset <= j < at ==> !match_at(self@.bytes, sequence@, j),
            decreases len - at,
        {
            let mut k: usize = 0;
            let mut mismatch = false;
            while k < bytes && !mismatch
                invariant
                    at + bytes <= len,
                    len == self@.bytes.len(),
                    bytes == sequence@.len(),
                    k <= bytes,
                    !mismatch ==> forall|j: int|
                        0 <= j < k ==> self@.bytes[at + j] == sequence@[j],
                    mismatch ==> exists|j: int|
                        0 <= j < bytes && self@.bytes[at + j] != sequence@[j],
                decreases bytes - k,
            {
                if self.data[at + k] != sequence[k] {
                    mismatch = true;
                    proof {
                        assert(self@.bytes[at + k as int] != sequence@[k as int]);
                    }
                }
                k = k + 1;
            }
            if !mismatch {
                proof {
                    assert(self@.bytes.subrange(at as int, at + sequence@.len()) =~= sequence@);
                }
                return Ok(at);
            }
            proof {
                let ghost bad = choose|j: int|
                    0 <= j < sequence@.len() && self@.bytes[at + j] != sequence@[j];
                assert(self@.bytes.subrange(at as int, at + sequence@.len())[bad]
                    != sequence@[bad]);
            }
            at = at + 1;
        }
        proof {
            assert forall|j: int| offset <= j implies !match_at(self@.bytes, sequence@, j) by {
                if j >= at {
                    assert(j + sequence@.len() > self@.bytes.len());
                }
            }
        }
        Err(ByteReaderError::NotFound { sequence: vstd::slice::slice_to_vec(sequence) })
    }

    /// The least offset at or after the cursor where `sequence` occurs.
    pub fn find_next(&self, sequence: &[u8]) -> (r: Result<usize, ByteReaderError>)
        ensures
            self@.pos >= 0 ==> match r {
                Ok(i) => {
                    &&& self@.pos <= i
                    &&& match_at(self@.bytes, sequence@, i as int)
                    &&& forall|j: int|
                        self@.pos <= j < i ==> !match_at(self@.bytes, sequence@, j)
                },
                Err(e) => {
                    &&& (e matches ByteReaderError::NotFound { sequence: s } && s@ == sequence@)
                    &&& forall|j: int| self@.pos <= j ==> !match_at(self@.bytes, sequence@, j)
                },
            },
    {
        self.find_from(sequence, self.offset)
    }

    /// The least offset in the whole buffer where `sequence` occurs.
    pub fn find(&self, sequence: &[u8]) -> (r: Result<usize, ByteReaderError>)
        ensures
            match r {
                Ok(i) => {
                    &&& match_at(self@.bytes, sequence@, i as int)
                    &&& forall|j: int| 0 <= j < i ==> !match_at(self@.bytes, sequence@, j)
                },
                Err(e) => {
                    &&& (e matches ByteReaderError::NotFound { sequence: s } && s@ == sequence@)
                    &&& forall|j: int| !match_at(self@.bytes, sequence@, j)
                },
            },
    {
        self.find_from(sequence, 0)
    }

    /// All offsets `>= start_offset` where `sequence` occurs, in strictly
    /// increasing order. Matches may overlap: the scan resumes one byte after
    /// each hit, not after the whole pattern.
    pub fn find_all_offsets_after(&self, start_offset: usize, sequence: &[u8]) -> (r: Vec<usize>)
        ensures
            forall|k: int|
                0 <= k < r@.len() ==> start_offset <= r@[k] && match_at(
                    self@.bytes,
                    sequence@,
                    r@[k] as int,
                ),
            forall|k: int| 0 <= k < r@.len() - 1 ==> #[trigger] r@[k] < r@[k + 1],
            forall|j: int|
                start_offset <= j && match_at(self@.bytes, sequence@, j) ==> r@.contains(
                    j as usize,
                ),
    {
        let mut offset = start_offset;
        let mut found_offsets: Vec<usize> = Vec::new();
        loop
            invariant
                start_offset <= offset,
                forall|k: int|
                    0 <= k < found_offsets@.len() ==> start_offset <= found_offsets@[k]
                        && match_at(self@.bytes, sequence@, found_offsets@[k] as int),
                forall|k: int|
                    0 <= k < found_offsets@.len() - 1 ==> #[trigger] found_offsets@[k]
                        < found_offsets@[k + 1],
                found_offsets@.len() > 0 ==> found_offsets@.last() < offset,
                forall|j: int|
                    start_offset <= j < offset && match_at(self@.bytes, sequence@, j)
                        ==> found_offsets@.contains(j as usize),
            decreases self@.bytes.len() + 1 - offset,
        {
            match self.find_from(sequence, offset) {
                Ok(found_offset) => {
                    let ghost prev = found_offsets@;
                    found_offsets.push(found_offset);
                    proof {
                        assert forall|j: int|
                            start_offset <= j < found_offset + 1 && match_at(
                                self@.bytes,
                                sequence@,
                                j,
                            ) implies found_offsets@.contains(j as usize) by {
                            if j < offset {
                                assert(prev.contains(j as usize));
                                let ghost k = choose|k: int|
                                    0 <= k < prev.len() && prev[k] == j as usize;
                                assert(found_offsets@[k] == j as usize);
                            } else {
                                assert(j == found_offset);
                                assert(found_offsets@.last() == j as usize);
                            }
                        }
                    }
                    match found_offset.checked_add(1) {
                        Some(next) => {
                            offset = next;
                        },
                        None => {
                            let len = self.data.len();
                            proof {
                                assert forall|j: int|
                                    start_offset <= j && match_at(self@.bytes, sequence@, j)
                                    implies found_offsets@.contains(j as usize) by {
                                    if j > found_offset {
                                        assert(j + sequence@.len() > self@.bytes.len());
                                    }
                                }
                            }
                            return found_offsets;
                        },
                    }
                },
                Err(_) => {
                    return found_offsets;
                },
            }
        }
    }

    /// All offsets in the whole buffer where `sequence` occurs, in strictly
    /// increasing order, overlaps permitted.
    pub fn find_all_offsets(&self, sequence: &[u8]) -> (r: Vec<usize>)
        ensures
            forall|k: int|
                0 <= k < r@.len() ==> match_at(self@.bytes, sequence@, r@[k] as int),
            forall|k: int| 0 <= k < r@.len() - 1 ==> #[trigger] r@[k] < r@[k + 1],
            forall|j: int| match_at(self@.bytes, sequence@, j) ==> r@.contains(j as usize),
    {
        self.find_all_offsets_after(0, sequence)
    }

    /// Consume `length` bytes and decode them as strict UTF-8; ill-formed
    /// bytes fail with `InvalidUtf8` (the bytes stay consumed).
    pub fn read_string(&mut self, length: usize) -> (r: Result<String, ByteReaderError>)
        ensures
            final(self)@.same_except_pos(old(self)@),
            old(self)@.pos + length <= old(self)@.bytes.len() ==> {
                let taken = old(self)@.bytes.subrange(old(self)@.pos as int, old(self)@.pos + length);
                &&& final(self)@.pos == old(self)@.pos + length
                &&& (match r {
                    Ok(s) => utf8_decoded(taken) == Some(s@),
                    Err(e) => e == ByteReaderError::InvalidUtf8 && utf8_decoded(taken) is None,
                })
            },
            old(self)@.pos + length > old(self)@.bytes.len() ==> {
                &&& final(self)@.pos == old(self)@.pos
                &&& (r matches Err(e) && e matches ByteReaderError::OutOfBounds { .. })
            },
    {
        let bytes = match self.read_bytes(length) {
            Ok(v) => v,
            Err(e) => {
                return Err(e);
            },
        };
        match string_from_utf8(bytes) {
            Some(s) => Ok(s),
            None => Err(ByteReaderError::InvalidUtf8),
        }
    }

    /// Consume `length` bytes and decode them as UTF-8, replacing ill-formed
    /// sequences with the replacement character; on valid UTF-8 the result
    /// equals the strict decoding.
    pub fn read_string_lossy(&mut self, length: usize) -> (r: Result<String, ByteReaderError>)
        ensures
            final(self)@.same_except_pos(old(self)@),
            old(self)@.pos + length <= old(self)@.bytes.len() ==> {
                let taken = old(self)@.bytes.subrange(old(self)@.pos as int, old(self)@.pos + length);
                &&& final(self)@.pos == old(self)@.pos + length
                &&& (r matches Ok(s) && s@ == utf8_lossy_decoded(taken))
                &&& (r matches Ok(s) && (utf8_decoded(taken) matches Some(c) ==> s@ == c))
            },
            old(self)@.pos + length > old(self)@.bytes.len() ==> {
                &&& final(self)@.pos == old(self)@.pos
                &&& (r matches Err(e) && e matches ByteReaderError::OutOfBounds { .. })
            },
    {
        let bytes = match self.read_bytes(length) {
            Ok(v) => v,
            Err(e) => {
                return Err(e);
            },
        };
        Ok(string_from_utf8_lossy(bytes))
    }

    /// Consume a fixed-width 32-bit length (read with the current byte
    /// order), then that many bytes as strict UTF-8.
    pub fn read_string_length(&mut self) -> (r: Result<String, ByteReaderError>)
        ensures
            final(self)@.same_except_pos(old(self)@),
            match u32::parsed(old(self)@.rest(), old(self)@.endian) {
                None => {
                    &&& final(self)@.pos == old(self)@.pos
                    &&& (r matches Err(e) && e matches ByteReaderError::OutOfBounds { .. })
                },
                Some((len, k)) => {
                    if old(self)@.pos + k + len <= old(self)@.bytes.len() {
                        let taken = old(self)@.bytes.subrange(
                            old(self)@.pos + k,
                            old(self)@.pos + k + len,
                        );
                        &&& final(self)@.pos == old(self)@.pos + k + len
                        &&& (match r {
                            Ok(s) => utf8_decoded(taken) == Some(s@),
                            Err(e) => e == ByteReaderError::InvalidUtf8 && utf8_decoded(taken)
                                is None,
                        })
                    } else {
                        &&& final(self)@.pos == old(self)@.pos + k
                        &&& (r matches Err(e) && e matches ByteReaderError::OutOfBounds { .. })
                    }
                },
            },
    {
        let length = match u32::read_from_byte_reader(self) {
            Ok(v) => v,
            Err(e) => {
                return Err(e);
            },
        };
        self.read_string(length as usize)
    }

    /// Consume a fixed-width 32-bit length (read with the current byte
    /// order), then that many bytes as UTF-8, ill-formed sequences replaced.
    pub fn read_string_lossy_length(&mut self) -> (r: Result<String, ByteReaderError>)
        ensures
            final(self)@.same_except_pos(old(self)@),
            match u32::parsed(old(self)@.rest(), old(self)@.endian) {
                None => {
                    &&& final(self)@.pos == old(self)@.pos
                    &&& (r matches Err(e) && e matches ByteReaderError::OutOfBounds { .. })
                },
                Some((len, k)) => {
                    if old(self)@.pos + k + len <= old(self)@.bytes.len() {
                        let taken = old(self)@.bytes.subrange(
                            old(self)@.pos + k,
                            old(self)@.pos + k + len,
                        );
                        &&& final(self)@.pos == old(self)@.pos + k + len
                        &&& (r matches Ok(st) && st@ == utf8_lossy_decoded(taken))
                    } else {
                        &&& final(self)@.pos == old(self)@.pos + k
                        &&& (r matches Err(e) && e matches ByteReaderError::OutOfBounds { .. })
                    }
                },
            },
    {
        let length = match u32::read_from_byte_reader(self) {
            Ok(v) => v,
            Err(e) => {
                return Err(e);
            },
        };
        self.read_string_lossy(length as usize)
    }
}

/// The character sequence that strict UTF-8 decoding assigns to `bytes`, or
/// none when the bytes are ill-formed. The decoding is a function of the
/// bytes alone.
pub uninterp spec fn utf8_decoded(bytes: Seq<u8>) -> Option<Seq<char>>;

/// The character sequence that lossy UTF-8 decoding assigns to `bytes`,
/// ill-formed sequences replaced by the replacement character. The decoding
/// is a function of the bytes alone.
pub uninterp spec fn utf8_lossy_decoded(bytes: Seq<u8>) -> Seq<char>;

/// Relies on std's `String::from_utf8`: returns a string exactly when the
/// bytes are valid UTF-8, and then the string's characters are the UTF-8
/// decoding of the bytes.
#[verifier::external_body]
fn string_from_utf8(bytes: Vec<u8>) -> (r: Option<String>)
    ensures
        r is Some <==> utf8_decoded(bytes@) is Some,
        r matches Some(s) ==> utf8_decoded(bytes@) == Some(s@),
{
    String::from_utf8(bytes).ok()
}

/// Relies on std's `String::from_utf8_lossy`: decodes the bytes as UTF-8,
/// replacing each ill-formed sequence with U+FFFD; on valid UTF-8 it
/// returns the input unchanged, so there the lossy decoding equals the
/// strict one.
#[verifier::external_body]
fn string_from_utf8_lossy(bytes: Vec<u8>) -> (r: String)
    ensures
        r@ == utf8_lossy_decoded(bytes@),
        utf8_decoded(bytes@) matches Some(c) ==> r@ == c,
{
    String::from_utf8_lossy(&bytes).into_owned()
}

/// Dropping a prefix twice drops the prefix sum once.
pub proof fn lemma_skip_skip(s: Seq<u8>, a: int, b: int)
    requires
        0 <= a,
        0 <= b,
        a + b <= s.len(),
    ensures
        s.skip(a).skip(b) == s.skip(a + b),
{
    assert(s.skip(a).skip(b) =~= s.skip(a + b));
}

/// The value of two bytes under the given byte order.
pub open spec fn value16(b0: u8, b1: u8, e: Endian) -> int {
    match e {
        Endian::Little => b0 + 0x100 * b1,
        Endian::Big => b1 + 0x100 * b0,
    }
}

/// The value of four bytes under the given byte order.
pub open spec fn value32(b0: u8, b1: u8, b2: u8, b3: u8, e: Endian) -> int {
    match e {
        Endian::Little => b0 + 0x100 * b1 + 0x1_0000 * b2 + 0x100_0000 * b3,
        Endian::Big => b3 + 0x100 * b2 + 0x1_0000 * b1 + 0x100_0000 * b0,
    }
}

/// The value of eight bytes under the given byte order; `s` has length 8 and
/// `s[0]` is the first byte in the stream.
pub open spec fn value64(s: Seq<u8>, e: Endian) -> int
    recommends
        s.len() == 8,
{
    match e {
        Endian::Little => s[0] + 0x100 * s[1] + 0x1_0000 * s[2] + 0x100_0000 * s[3]
            + 0x1_0000_0000 * s[4] + 0x100_0000_0000 * s[5] + 0x1_0000_0000_0000 * s[6]
            + 0x100_0000_0000_0000 * s[7],
        Endian::Big => s[7] + 0x100 * s[6] + 0x1_0000 * s[5] + 0x100_0000 * s[4]
            + 0x1_0000_0000 * s[3] + 0x100_0000_0000 * s[2] + 0x1_0000_0000_0000 * s[1]
            + 0x100_0000_0000_0000 * s[0],
    }
}

/// Two's-complement reading of an 8-bit value.
pub open spec fn as_signed8(v: int) -> int {
    if v < 0x80 {
        v as int
    } else {
        v - 0x100
    }
}

/// Two's-complement reading of a 16-bit value.
pub open spec fn as_signed16(v: int) -> int {
    if v < 0x8000 {
        v as int
    } else {
        v - 0x1_0000
    }
}

/// Two's-complement reading of a 32-bit value.
pub open spec fn as_signed32(v: int) -> int {
    if v < 0x8000_0000 {
        v as int
    } else {
        v - 0x1_0000_0000
    }
}

/// Two's-complement reading of a 64-bit value.
pub open spec fn as_signed64(v: int) -> int {
    if v < 0x8000_0000_0000_0000 {
        v as int
    } else {
        v - 0x1_0000_0000_0000_0000
    }
}

/// A type readable from a [`ByteReader`]: its decoder consumes a prefix of
/// the bytes at the cursor and is characterized exactly by [`Self::parsed`].
pub trait FromByteReader: Sized + DeepView {
    /// The value (as its deep view) and consumed byte count that this type's
    /// decoder assigns to a prefix of `bytes` under endianness `e`, or none
    /// when the decode fails.
    spec fn parsed(bytes: Seq<u8>, e: Endian) -> Option<(<Self as DeepView>::V, int)>;

    /// The kind of error the decoder reports when [`Self::parsed`] is none:
    /// the first failing step's own kind, propagated unchanged.
    spec fn parse_failure(bytes: Seq<u8>, e: Endian) -> DecodeFailure;

    /// Decode one value at the cursor, advancing past the consumed bytes;
    /// succeeds exactly when [`Self::parsed`] does.
    fn read_from_byte_reader(reader: &mut ByteReader) -> (r: Result<Self, ByteReaderError>)
        ensures
            final(reader)@.same_except_pos(old(reader)@),
            final(reader)@.pos >= old(reader)@.pos,
            final(reader)@.pos <= old(reader)@.pos + old(reader)@.rest().len(),
            old(reader)@.in_bounds() ==> final(reader)@.in_bounds(),
            match r {
                Ok(v) => Self::parsed(old(reader)@.rest(), old(reader)@.endian) == Some(
                    (v.deep_view(), final(reader)@.pos - old(reader)@.pos),
                ),
                Err(err) => {
                    &&& Self::parsed(old(reader)@.rest(), old(reader)@.endian) is None
                    &&& failure_of(err) == Self::parse_failure(
                        old(reader)@.rest(),
                        old(reader)@.endian,
                    )
                },
            },
    ;

    /// Decode one value and restore the cursor and the save stack, whether
    /// the decode succeeded or failed.
    fn peak_from_byte_reader(reader: &mut ByteReader) -> (r: Result<Self, ByteReaderError>)
        ensures
            final(reader)@ == old(reader)@,
            match r {
                Ok(v) => (Self::parsed(old(reader)@.rest(), old(reader)@.endian) matches Some(p)
                    && p.0 == v.deep_view()),
                Err(_) => Self::parsed(old(reader)@.rest(), old(reader)@.endian) is None,
            },
    {
        reader.push_index();
        let r = Self::read_from_byte_reader(reader);
        reader.pop_index();
        proof {
            assert(reader@ =~= old(reader)@);
        }
        r
    }
}

impl FromByteReader for u8 {
    open spec fn parsed(bytes: Seq<u8>, e: Endian) -> Option<(u8, int)> {
        if bytes.len() >= 1 {
            Some((bytes[0], 1))
        } else {
            None
        }
    }

    open spec fn parse_failure(bytes: Seq<u8>, e: Endian) -> DecodeFailure {
        DecodeFailure::OutOfBounds
    }

    fn read_from_byte_reader(reader: &mut ByteReader) -> (r: Result<Self, ByteReaderError>)
        ensures
            r is Err ==> final(reader)@.pos == old(reader)@.pos,
            r matches Err(e) ==> e matches ByteReaderError::OutOfBounds { .. },
    {
        let b = match reader.read_bytes(1) {
            Ok(b) => b,
            Err(e) => {
                proof {
                    assert(old(reader)@.pos + 1 > old(reader)@.bytes.len());
                    assert(old(reader)@.rest().len() == 0);
                    assert(u8::parsed(old(reader)@.rest(), old(reader)@.endian) is None);
                    assert(failure_of(e) == DecodeFailure::OutOfBounds);
                    assert(u8::parse_failure(old(reader)@.rest(), old(reader)@.endian)
                        == DecodeFailure::OutOfBounds);
                }
                return Err(e);
            },
        };
        Ok(b[0])
    }
}

impl FromByteReader for i8 {
    open spec fn parsed(bytes: Seq<u8>, e: Endian) -> Option<(i8, int)> {
        if bytes.len() >= 1 {
            Some((as_signed8(bytes[0] as int) as i8, 1))
        } else {
            None
        }
    }

    open spec fn parse_failure(bytes: Seq<u8>, e: Endian) -> DecodeFailure {
        DecodeFailure::OutOfBounds
    }

    fn read_from_byte_reader(reader: &mut ByteReader) -> (r: Result<Self, ByteReaderError>)
        ensures
            r is Err ==> final(reader)@.pos == old(reader)@.pos,
            r matches Err(e) ==> e matches ByteReaderError::OutOfBounds { .. },
    {
        let b = match reader.read_bytes(1) {
            Ok(b) => b,
            Err(e) => {
                proof {
                    assert(failure_of(e) == DecodeFailure::OutOfBounds);
                    assert(i8::parse_failure(old(reader)@.rest(), old(reader)@.endian)
                        == DecodeFailure::OutOfBounds);
                }
                return Err(e);
            },
        };
        let v = b[0];
        if v < 0x80 {
            Ok(v as i8)
        } else {
            Ok(-((0xFFu8 - v) as i8) - 1)
        }
    }
}

impl FromByteReader for u16 {
    open spec fn parsed(bytes: Seq<u8>, e: Endian) -> Option<(u16, int)> {
        if bytes.len() >= 2 {
            Some((value16(bytes[0], bytes[1], e) as u16, 2))
        } else {
            None
        }
    }

    open spec fn parse_failure(bytes: Seq<u8>, e: Endian) -> DecodeFailure {
        DecodeFailure::OutOfBounds
    }

    fn read_from_byte_reader(reader: &mut ByteReader) -> (r: Result<Self, ByteReaderError>)
        ensures
            r is Err ==> final(reader)@.pos == old(reader)@.pos,
            r matches Err(e) ==> e matches ByteReaderError::OutOfBounds { .. },
    {
        let e = reader.endian;
        let b = match reader.read_bytes(2) {
            Ok(b) => b,
            Err(err) => {
                proof {
                    assert(failure_of(err) == DecodeFailure::OutOfBounds);
                    assert(u16::parse_failure(old(reader)@.rest(), old(reader)@.endian)
                        == DecodeFailure::OutOfBounds);
                }
                return Err(err);
            },
        };
        let (b0, b1) = (b[0] as u16, b[1] as u16);
        let v = match e {
            Endian::Little => b0 + 0x100 * b1,
            Endian::Big => b1 + 0x100 * b0,
        };
        Ok(v)
    }
}

impl FromByteReader for i16 {
    open spec fn parsed(bytes: Seq<u8>, e: Endian) -> Option<(i16, int)> {
        if bytes.len() >= 2 {
            Some((as_signed16(value16(bytes[0], bytes[1], e)) as i16, 2))
        } else {
            None
        }
    }

    open spec fn parse_failure(bytes: Seq<u8>, e: Endian) -> DecodeFailure {
        DecodeFailure::OutOfBounds
    }

    fn read_from_byte_reader(reader: &mut ByteReader) -> (r: Result<Self, ByteReaderError>)
        ensures
            r is Err ==> final(reader)@.pos == old(reader)@.pos,
            r matches Err(e) ==> e matches ByteReaderError::OutOfBounds { .. },
    {
        let u = match u16::read_from_byte_reader(reader) {
            Ok(u) => u,
            Err(err) => {
                proof {
                    assert(failure_of(err) == DecodeFailure::OutOfBounds);
                    assert(i16::parse_failure(old(reader)@.rest(), old(reader)@.endian)
                        == DecodeFailure::OutOfBounds);
                }
                return Err(err);
            },
        };
        if u < 0x8000 {
            Ok(u as i16)
        } else {
            Ok(-((0xFFFFu16 - u) as i16) - 1)
        }
    }
}

impl FromByteReader for u32 {
    open spec fn parsed(bytes: Seq<u8>, e: Endian) -> Option<(u32, int)> {
        if bytes.len() >= 4 {
            Some((value32(bytes[0], bytes[1], bytes[2], bytes[3], e) as u32, 4))
        } else {
            None
        }
    }

    open spec fn parse_failure(bytes: Seq<u8>, e: Endian) -> DecodeFailure {
        DecodeFailure::OutOfBounds
    }

    fn read_from_byte_reader(reader: &mut ByteReader) -> (r: Result<Self, ByteReaderError>)
        ensures
            r is Err ==> final(reader)@.pos == old(reader)@.pos,
            r matches Err(e) ==> e matches ByteReaderError::OutOfBounds { .. },
    {
        let e = reader.endian;
        let b = match reader.read_bytes(4) {
            Ok(b) => b,
            Err(err) => {
                proof {
                    assert(failure_of(err) == DecodeFailure::OutOfBounds);
                    assert(u32::parse_failure(old(reader)@.rest(), old(reader)@.endian)
                        == DecodeFailure::OutOfBounds);
                }
                return Err(err);
            },
        };
        let (b0, b1, b2, b3) = (b[0] as u32, b[1] as u32, b[2] as u32, b[3] as u32);
        let v = match e {
            Endian::Little => b0 + 0x100 * b1 + 0x1_0000 * b2 + 0x100_0000 * b3,
            Endian::Big => b3 + 0x100 * b2 + 0x1_0000 * b1 + 0x100_0000 * b0,
        };
        Ok(v)
    }
}

impl FromByteReader for i32 {
    open spec fn parsed(bytes: Seq<u8>, e: Endian) -> Option<(i32, int)> {
        if bytes.len() >= 4 {
            Some((as_signed32(value32(bytes[0], bytes[1], bytes[2], bytes[3], e)) as i32, 4))
        } else {
            None
        }
    }

    open spec fn parse_failure(bytes: Seq<u8>, e: Endian) -> DecodeFailure {
        DecodeFailure::OutOfBounds
    }

    fn read_from_byte_reader(reader: &mut ByteReader) -> (r: Result<Self, ByteReaderError>)
        ensures
            r is Err ==> final(reader)@.pos == old(reader)@.pos,
            r matches Err(e) ==> e matches ByteReaderError::OutOfBounds { .. },
    {
        let u = match u32::read_from_byte_reader(reader) {
            Ok(u) => u,
            Err(err) => {
                proof {
                    assert(failure_of(err) == DecodeFailure::OutOfBounds);
                    assert(i32::parse_failure(old(reader)@.rest(), old(reader)@.endian)
                        == DecodeFailure::OutOfBounds);
                }
                return Err(err);
            },
        };
        if u < 0x8000_0000 {
            Ok(u as i32)
        } else {
            Ok(-((0xFFFF_FFFFu32 - u) as i32) - 1)
        }
    }
}

impl FromByteReader for u64 {
    open spec fn parsed(bytes: Seq<u8>, e: Endian) -> Option<(u64, int)> {
        if bytes.len() >= 8 {
            Some((value64(bytes.take(8), e) as u64, 8))
        } else {
            None
        }
    }

    open spec fn parse_failure(bytes: Seq<u8>, e: Endian) -> DecodeFailure {
        DecodeFailure::OutOfBounds
    }

    fn read_from_byte_reader(reader: &mut ByteReader) -> (r: Result<Self, ByteReaderError>)
        ensures
            r is Err ==> final(reader)@.pos == old(reader)@.pos,
            r matches Err(e) ==> e matches ByteReaderError::OutOfBounds { .. },
    {
        let e = reader.endian;
        let b = match reader.read_bytes(8) {
            Ok(b) => b,
            Err(err) => {
                proof {
                    assert(failure_of(err) == DecodeFailure::OutOfBounds);
                    assert(u64::parse_failure(old(reader)@.rest(), old(reader)@.endian)
                        == DecodeFailure::OutOfBounds);
                }
                return Err(err);
            },
        };
        let lo = match e {
            Endian::Little => (b[0] as u64) + 0x100 * (b[1] as u64) + 0x1_0000 * (b[2] as u64)
                + 0x100_0000 * (b[3] as u64),
            Endian::Big => (b[7] as u64) + 0x100 * (b[6] as u64) + 0x1_0000 * (b[5] as u64)
                + 0x100_0000 * (b[4] as u64),
        };
        let hi = match e {
            Endian::Little => (b[4] as u64) + 0x100 * (b[5] as u64) + 0x1_0000 * (b[6] as u64)
                + 0x100_0000 * (b[7] as u64),
            Endian::Big => (b[3] as u64) + 0x100 * (b[2] as u64) + 0x1_0000 * (b[1] as u64)
                + 0x100_0000 * (b[0] as u64),
        };
        let v = lo + 0x1_0000_0000 * hi;
        proof {
            assert(b@.take(8) =~= b@);
        }
        Ok(v)
    }
}

impl FromByteReader for i64 {
    open spec fn parsed(bytes: Seq<u8>, e: Endian) -> Option<(i64, int)> {
        if bytes.len() >= 8 {
            Some((as_signed64(value64(bytes.take(8), e)) as i64, 8))
        } else {
            None
        }
    }

    open spec fn parse_failure(bytes: Seq<u8>, e: Endian) -> DecodeFailure {
        DecodeFailure::OutOfBounds
    }

    fn read_from_byte_reader(reader: &mut ByteReader) -> (r: Result<Self, ByteReaderError>)
        ensures
            r is Err ==> final(reader)@.pos == old(reader)@.pos,
            r matches Err(e) ==> e matches ByteReaderError::OutOfBounds { .. },
    {
        let u = match u64::read_from_byte_reader(reader) {
            Ok(u) => u,
            Err(err) => {
                proof {
                    assert(failure_of(err) == DecodeFailure::OutOfBounds);
                    assert(i64::parse_failure(old(reader)@.rest(), old(reader)@.endian)
                        == DecodeFailure::OutOfBounds);
                }
                return Err(err);
            },
        };
        if u < 0x8000_0000_0000_0000 {
            Ok(u as i64)
        } else {
            Ok(-((0xFFFF_FFFF_FFFF_FFFFu64 - u) as i64) - 1)
        }
    }
}

impl ByteReader {
    /// Decode one `T` at the cursor; see [`FromByteReader::read_from_byte_reader`].
    pub fn read<T: FromByteReader>(&mut self) -> (r: Result<T, ByteReaderError>)
        ensures
            final(self)@.same_except_pos(old(self)@),
            final(self)@.pos >= old(self)@.pos,
            final(self)@.pos <= old(self)@.pos + old(self)@.rest().len(),
            old(self)@.in_bounds() ==> final(self)@.in_bounds(),
            match r {
                Ok(v) => T::parsed(old(self)@.rest(), old(self)@.endian) == Some(
                    (v.deep_view(), final(self)@.pos - old(self)@.pos),
                ),
                Err(_) => T::parsed(old(self)@.rest(), old(self)@.endian) is None,
            },
    {
        T::read_from_byte_reader(self)
    }

    /// Decode one `T` without moving the cursor; see
    /// [`FromByteReader::peak_from_byte_reader`].
    pub fn peak<T: FromByteReader>(&mut self) -> (r: Result<T, ByteReaderError>)
        ensures
            final(self)@ == old(self)@,
            match r {
                Ok(v) => (T::parsed(old(self)@.rest(), old(self)@.endian) matches Some(p) && p.0
                    == v.deep_view()),
                Err(_) => T::parsed(old(self)@.rest(), old(self)@.endian) is None,
            },
    {
        T::peak_from_byte_reader(self)
    }
}

} // verus!
