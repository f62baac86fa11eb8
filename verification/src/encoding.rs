//! The text encodings a file can be viewed in, and what a line break looks
//! like in each of them.

use vstd::prelude::*;
use vstd::slice::slice_subrange;

verus! {

/// How the bytes of a file are read as text.
#[derive(Debug, Clone, Copy, PartialEq, Eq, Structural)]
pub enum FileEncoding {
    Utf8,
    ShiftJis,
    Utf16Le,
    Utf16Be,
}

impl FileEncoding {
    /// Whether a line feed takes one byte, as opposed to a two-byte code unit.
    pub open spec fn is_single_byte(self) -> bool {
        self == FileEncoding::Utf8 || self == FileEncoding::ShiftJis
    }

    /// The number of bytes in one code unit, and so in one line feed.
    pub open spec fn unit(self) -> int {
        if self.is_single_byte() {
            1
        } else {
            2
        }
    }

    /// The bytes of the ASCII character `c`.
    pub open spec fn ascii_unit(self, c: u8) -> Seq<u8> {
        match self {
            FileEncoding::Utf8 | FileEncoding::ShiftJis => seq![c],
            FileEncoding::Utf16Le => seq![c, 0u8],
            FileEncoding::Utf16Be => seq![0u8, c],
        }
    }

    /// A bare line feed.
    pub open spec fn lf(self) -> Seq<u8> {
        self.ascii_unit(0x0A)
    }

    /// A carriage return followed by a line feed.
    pub open spec fn crlf(self) -> Seq<u8> {
        self.ascii_unit(0x0D) + self.ascii_unit(0x0A)
    }

    /// The name shown for this encoding.
    pub open spec fn label(self) -> Seq<char> {
        match self {
            FileEncoding::Utf8 => "UTF-8"@,
            FileEncoding::ShiftJis => "Shift-JIS"@,
            FileEncoding::Utf16Le => "UTF-16 LE"@,
            FileEncoding::Utf16Be => "UTF-16 BE"@,
        }
    }

    /// Every encoding, in the order in which they are offered.
    pub fn all_cases() -> (cases: &'static [FileEncoding])
        ensures
            cases@ == seq![
                FileEncoding::Utf8,
                FileEncoding::ShiftJis,
                FileEncoding::Utf16Le,
                FileEncoding::Utf16Be,
            ],
    {
        &[
            FileEncoding::Utf8,
            FileEncoding::ShiftJis,
            FileEncoding::Utf16Le,
            FileEncoding::Utf16Be,
        ]
    }

    /// The name shown for this encoding.
    pub fn to_label(self) -> (label: &'static str)
        ensures
            label@ == self.label(),
    {
        match self {
            FileEncoding::Utf8 => "UTF-8",
            FileEncoding::ShiftJis => "Shift-JIS",
            FileEncoding::Utf16Le => "UTF-16 LE",
            FileEncoding::Utf16Be => "UTF-16 BE",
        }
    }

    /// The line break written where the file itself shows none.
    pub fn default_newline(self) -> (newline: &'static [u8])
        ensures
            newline@ == self.crlf(),
    {
        match self {
            FileEncoding::Utf8 | FileEncoding::ShiftJis => &[0x0D, 0x0A],
            FileEncoding::Utf16Le => &[0x0D, 0x00, 0x0A, 0x00],
            FileEncoding::Utf16Be => &[0x00, 0x0D, 0x00, 0x0A],
        }
    }
}

/// Whether a line feed ends right before position `p`. In the two-byte
/// encodings only code units at even positions count.
pub open spec fn newline_ends_at(bytes: Seq<u8>, encoding: FileEncoding, p: int) -> bool {
    &&& encoding.unit() <= p <= bytes.len()
    &&& p % encoding.unit() == 0
    &&& match encoding {
        FileEncoding::Utf8 | FileEncoding::ShiftJis => bytes[p - 1] == 0x0A,
        FileEncoding::Utf16Le => bytes[p - 2] == 0x0A && bytes[p - 1] == 0x00,
        FileEncoding::Utf16Be => bytes[p - 2] == 0x00 && bytes[p - 1] == 0x0A,
    }
}

/// Whether the last code unit is a carriage return or a line feed.
pub open spec fn ends_with_break(bytes: Seq<u8>, encoding: FileEncoding) -> bool {
    let n = bytes.len() as int;
    &&& encoding.unit() <= n
    &&& match encoding {
        FileEncoding::Utf8 | FileEncoding::ShiftJis => bytes[n - 1] == 0x0A || bytes[n - 1] == 0x0D,
        FileEncoding::Utf16Le => (bytes[n - 2] == 0x0A || bytes[n - 2] == 0x0D) && bytes[n - 1]
            == 0x00,
        FileEncoding::Utf16Be => (bytes[n - 1] == 0x0A || bytes[n - 1] == 0x0D) && bytes[n - 2]
            == 0x00,
    }
}

/// `bytes` without the run of carriage returns and line feeds at its end.
pub open spec fn trimmed(bytes: Seq<u8>, encoding: FileEncoding) -> Seq<u8>
    decreases bytes.len(),
{
    if ends_with_break(bytes, encoding) {
        trimmed(bytes.take(bytes.len() - encoding.unit()), encoding)
    } else {
        bytes
    }
}

/// Trimming takes nothing but line breaks off the end, and all of them.
pub proof fn law_trimmed(bytes: Seq<u8>, encoding: FileEncoding)
    ensures
        trimmed(bytes, encoding).is_prefix_of(bytes),
        !ends_with_break(trimmed(bytes, encoding), encoding),
        trimmed(trimmed(bytes, encoding), encoding) == trimmed(bytes, encoding),
    decreases bytes.len(),
{
    if ends_with_break(bytes, encoding) {
        let shorter = bytes.take(bytes.len() - encoding.unit());
        law_trimmed(shorter, encoding);
        assert(trimmed(bytes, encoding) =~= bytes.take(trimmed(bytes, encoding).len() as int));
    } else {
        assert(bytes =~= bytes.take(bytes.len() as int));
    }
}

/// The line break that `raw` ends with: CR LF, else LF, else nothing.
pub open spec fn newline_suffix(raw: Seq<u8>, encoding: FileEncoding) -> Seq<u8> {
    if encoding.crlf().is_suffix_of(raw) {
        encoding.crlf()
    } else if encoding.lf().is_suffix_of(raw) {
        encoding.lf()
    } else {
        Seq::empty()
    }
}

/// A line feed ends at a position just where the bytes up to there are whole
/// code units and end with a line feed.
pub proof fn law_newline_ends_at(bytes: Seq<u8>, encoding: FileEncoding, p: int)
    requires
        0 <= p <= bytes.len(),
    ensures
        newline_ends_at(bytes, encoding, p) <==> {
            &&& p % (encoding.lf().len() as int) == 0
            &&& encoding.lf().is_suffix_of(bytes.take(p))
        },
{
    let front = bytes.take(p);
    let lf = encoding.lf();
    assert(encoding.unit() == 1 || encoding.unit() == 2);
    if p >= encoding.unit() {
        let tail = front.subrange(p - encoding.unit(), p);
        assert(tail[0] == bytes[p - encoding.unit()]);
        if encoding.unit() == 2 {
            assert(tail[1] == bytes[p - 1]);
        }
        if newline_ends_at(bytes, encoding, p) {
            assert(tail =~= lf);
        }
    }
}

/// The last code unit is a line break just where it is a line feed or a
/// carriage return.
pub proof fn law_ends_with_break(bytes: Seq<u8>, encoding: FileEncoding)
    ensures
        ends_with_break(bytes, encoding) <==> encoding.ascii_unit(0x0A).is_suffix_of(bytes)
            || encoding.ascii_unit(0x0D).is_suffix_of(bytes),
{
    let n = bytes.len() as int;
    let lf = encoding.ascii_unit(0x0A);
    let cr = encoding.ascii_unit(0x0D);
    if n >= encoding.unit() {
        let tail = bytes.subrange(n - encoding.unit(), n);
        assert(tail[0] == bytes[n - encoding.unit()]);
        if encoding.unit() == 2 {
            assert(tail[1] == bytes[n - 1]);
        }
        if ends_with_break(bytes, encoding) {
            assert(tail =~= lf || tail =~= cr);
        }
    }
}

/// A line feed or a carriage return at the end makes no difference to what is
/// left when line breaks are trimmed, and where there is none, all is left.
pub proof fn law_trimmed_of_break(bytes: Seq<u8>, encoding: FileEncoding)
    ensures
        trimmed(bytes + encoding.ascii_unit(0x0A), encoding) == trimmed(bytes, encoding),
        trimmed(bytes + encoding.ascii_unit(0x0D), encoding) == trimmed(bytes, encoding),
        !ends_with_break(bytes, encoding) ==> trimmed(bytes, encoding) == bytes,
{
    let with_lf = bytes + encoding.ascii_unit(0x0A);
    let with_cr = bytes + encoding.ascii_unit(0x0D);
    assert(ends_with_break(with_lf, encoding));
    assert(ends_with_break(with_cr, encoding));
    assert(with_lf.take(with_lf.len() - encoding.unit()) =~= bytes);
    assert(with_cr.take(with_cr.len() - encoding.unit()) =~= bytes);
}

/// The line break of a raw line stands at its end. It is CR LF where the line
/// ends so, else LF where it ends so, else nothing.
pub proof fn law_newline_suffix(front: Seq<u8>, raw: Seq<u8>, encoding: FileEncoding)
    ensures
        newline_suffix(raw, encoding).is_suffix_of(raw),
        newline_suffix(
            front + encoding.ascii_unit(0x0D) + encoding.ascii_unit(0x0A),
            encoding,
        ) == encoding.ascii_unit(0x0D) + encoding.ascii_unit(0x0A),
        !encoding.ascii_unit(0x0D).is_suffix_of(front) ==> newline_suffix(
            front + encoding.ascii_unit(0x0A),
            encoding,
        ) == encoding.ascii_unit(0x0A),
        !encoding.ascii_unit(0x0A).is_suffix_of(raw) ==> newline_suffix(raw, encoding)
            == Seq::<u8>::empty(),
{
    let cr = encoding.ascii_unit(0x0D);
    let lf = encoding.ascii_unit(0x0A);
    let crlf = encoding.crlf();
    let unit = encoding.unit();
    let n = raw.len() as int;
    assert(raw.subrange(n, n) =~= Seq::<u8>::empty());
    let a = front + cr + lf;
    assert(a.subrange(a.len() - crlf.len(), a.len() as int) =~= crlf);
    let b = front + lf;
    let m = b.len() as int;
    assert(b.subrange(m - unit, m) =~= lf);
    if crlf.is_suffix_of(b) {
        let tail = b.subrange(m - crlf.len(), m);
        assert(front.subrange(front.len() - unit, front.len() as int) =~= cr) by {
            assert forall|k: int| 0 <= k < unit implies front[front.len() - unit + k] == cr[k] by {
                assert(tail[k] == crlf[k]);
                assert(tail[k] == b[m - crlf.len() + k]);
            }
        }
    }
    if crlf.is_suffix_of(raw) {
        let tail = raw.subrange(n - crlf.len(), n);
        assert(raw.subrange(n - unit, n) =~= lf) by {
            assert forall|k: int| 0 <= k < unit implies raw[n - unit + k] == lf[k] by {
                assert(tail[unit + k] == crlf[unit + k]);
            }
        }
    }
}

/// The part of `bytes` before the carriage returns and line feeds at its end.
pub fn trim_line_end(bytes: &[u8], encoding: FileEncoding) -> (clean: &[u8])
    ensures
        clean@ == trimmed(bytes@, encoding),
        clean@.len() <= bytes@.len(),
{
    let mut len: usize = bytes.len();
    assert(bytes@.take(len as int) =~= bytes@);
    match encoding {
        FileEncoding::Utf8 | FileEncoding::ShiftJis => {
            while len > 0 && (bytes[len - 1] == 0x0A || bytes[len - 1] == 0x0D)
                invariant
                    len <= bytes@.len(),
                    encoding.is_single_byte(),
                    trimmed(bytes@.take(len as int), encoding) == trimmed(bytes@, encoding),
                decreases len,
            {
                assert(ends_with_break(bytes@.take(len as int), encoding));
                assert(bytes@.take(len as int).take(len - 1) =~= bytes@.take(len - 1));
                len = len - 1;
            }
        },
        FileEncoding::Utf16Le => {
            while len >= 2 && (bytes[len - 2] == 0x0A || bytes[len - 2] == 0x0D) && bytes[len - 1]
                == 0x00
                invariant
                    len <= bytes@.len(),
                    encoding == FileEncoding::Utf16Le,
                    trimmed(bytes@.take(len as int), encoding) == trimmed(bytes@, encoding),
                decreases len,
            {
                assert(ends_with_break(bytes@.take(len as int), encoding));
                assert(bytes@.take(len as int).take(len - 2) =~= bytes@.take(len - 2));
                len = len - 2;
            }
        },
        FileEncoding::Utf16Be => {
            while len >= 2 && (bytes[len - 1] == 0x0A || bytes[len - 1] == 0x0D) && bytes[len - 2]
                == 0x00
                invariant
                    len <= bytes@.len(),
                    encoding == FileEncoding::Utf16Be,
                    trimmed(bytes@.take(len as int), encoding) == trimmed(bytes@, encoding),
                decreases len,
            {
                assert(ends_with_break(bytes@.take(len as int), encoding));
                assert(bytes@.take(len as int).take(len - 2) =~= bytes@.take(len - 2));
                len = len - 2;
            }
        },
    }
    assert(!ends_with_break(bytes@.take(len as int), encoding));
    slice_subrange(bytes, 0, len)
}

/// The line break at the end of a raw line; empty where it has none.
pub fn get_newline_bytes(raw: &[u8], encoding: FileEncoding) -> (newline: &[u8])
    ensures
        newline@ == newline_suffix(raw@, encoding),
{
    let n: usize = raw.len();
    let width: usize = match encoding {
        FileEncoding::Utf8 | FileEncoding::ShiftJis => {
            if n >= 2 && raw[n - 2] == 0x0D && raw[n - 1] == 0x0A {
                2
            } else if n >= 1 && raw[n - 1] == 0x0A {
                1
            } else {
                0
            }
        },
        FileEncoding::Utf16Le => {
            if n >= 4 && raw[n - 4] == 0x0D && raw[n - 3] == 0x00 && raw[n - 2] == 0x0A && raw[n
                - 1] == 0x00 {
                4
            } else if n >= 2 && raw[n - 2] == 0x0A && raw[n - 1] == 0x00 {
                2
            } else {
                0
            }
        },
        FileEncoding::Utf16Be => {
            if n >= 4 && raw[n - 4] == 0x00 && raw[n - 3] == 0x0D && raw[n - 2] == 0x00 && raw[n
                - 1] == 0x0A {
                4
            } else if n >= 2 && raw[n - 2] == 0x00 && raw[n - 1] == 0x0A {
                2
            } else {
                0
            }
        },
    };
    proof {
        let crlf = encoding.crlf();
        let lf = encoding.lf();
        let tail = raw@.subrange(n - width, n as int);
        if crlf.is_suffix_of(raw@) {
            assert forall|k: int| 0 <= k < crlf.len() implies raw@[n - crlf.len() + k]
                == crlf[k] by {
                assert(raw@.subrange(n - crlf.len(), n as int)[k] == crlf[k]);
            }
            assert(raw@[n - crlf.len() + 0] == crlf[0]);
            assert(raw@[n - crlf.len() + 1] == crlf[1]);
            if encoding.unit() == 2 {
                assert(raw@[n - crlf.len() + 2] == crlf[2]);
                assert(raw@[n - crlf.len() + 3] == crlf[3]);
            }
        }
        if lf.is_suffix_of(raw@) {
            assert(raw@.subrange(n - lf.len(), n as int)[0] == lf[0]);
            if encoding.unit() == 2 {
                assert(raw@.subrange(n - lf.len(), n as int)[1] == lf[1]);
            }
        }
        if width == crlf.len() {
            assert(tail =~= crlf);
        } else if width == lf.len() {
            assert(tail =~= lf);
        }
        assert(tail =~= newline_suffix(raw@, encoding));
    }
    slice_subrange(raw, n - width, n)
}

/// Each encoding is shown under a name of its own: that of Unicode with the
/// number of bits in a code unit and, where it matters, the byte order.
pub proof fn law_labels(a: FileEncoding, b: FileEncoding)
    ensures
        a.label() == b.label() ==> a == b,
        FileEncoding::Utf8.label() == "UTF-8"@,
        FileEncoding::ShiftJis.label() == "Shift-JIS"@,
        FileEncoding::Utf16Le.label() == "UTF-16 LE"@,
        FileEncoding::Utf16Be.label() == "UTF-16 BE"@,
{
    reveal_strlit("UTF-8");
    reveal_strlit("Shift-JIS");
    reveal_strlit("UTF-16 LE");
    reveal_strlit("UTF-16 BE");
    assert("UTF-8"@.len() == 5);
    assert("Shift-JIS"@[0] == 'S');
    assert("UTF-16 LE"@[0] == 'U');
    assert("UTF-16 BE"@[0] == 'U');
    assert("UTF-16 LE"@[7] == 'L');
    assert("UTF-16 BE"@[7] == 'B');
}

} // verus!
