use vstd::prelude::*;

use crate::num::{
    copy_range, find_byte, find_from, lemma_find_from, parse_decimal, spec_parse_decimal, Decimal,
};

verus! {

/// A value as written in the configuration file: a boolean, a decimal
/// number, or a quoted string.
#[derive(Debug)]
pub enum SourceValue {
    Bool(bool),
    Num(Decimal),
    Text(Vec<u8>),
}

pub enum SourceValueV {
    Bool(bool),
    Num(Decimal),
    Text(Seq<u8>),
}

impl View for SourceValue {
    type V = SourceValueV;

    open spec fn view(&self) -> SourceValueV {
        match self {
            SourceValue::Bool(b) => SourceValueV::Bool(*b),
            SourceValue::Num(d) => SourceValueV::Num(*d),
            SourceValue::Text(t) => SourceValueV::Text(t@),
        }
    }
}

/// What the file source said about the two configuration keys, before
/// environment overrides and type validation.
#[derive(Debug)]
pub struct FileRecord {
    pub debug: Option<SourceValue>,
    pub fixversion: Option<SourceValue>,
}

pub struct FileRecordV {
    pub debug: Option<SourceValueV>,
    pub fixversion: Option<SourceValueV>,
}

impl View for FileRecord {
    type V = FileRecordV;

    open spec fn view(&self) -> FileRecordV {
        FileRecordV {
            debug: match &self.debug {
                Some(v) => Some(v@),
                None => None,
            },
            fixversion: match &self.fixversion {
                Some(v) => Some(v@),
                None => None,
            },
        }
    }
}

pub open spec fn empty_record() -> FileRecordV {
    FileRecordV { debug: None, fixversion: None }
}

pub open spec fn is_space(b: u8) -> bool {
    b == 32 || b == 9 || b == 13
}

pub open spec fn first_non_space(s: Seq<u8>, i: int) -> int
    decreases s.len() - i when 0 <= i <= s.len()
{
    if i >= s.len() {
        s.len() as int
    } else if is_space(s[i]) {
        first_non_space(s, i + 1)
    } else {
        i
    }
}

pub open spec fn last_non_space(s: Seq<u8>, i: int) -> int
    decreases i when 0 <= i <= s.len()
{
    if i <= 0 {
        0
    } else if is_space(s[i - 1]) {
        last_non_space(s, i - 1)
    } else {
        i
    }
}

/// The slice of `s` with leading and trailing blanks removed.
pub open spec fn spec_trim(s: Seq<u8>) -> Seq<u8> {
    let lo = first_non_space(s, 0);
    let hi = last_non_space(s, s.len() as int);
    if lo <= hi {
        s.subrange(lo, hi)
    } else {
        Seq::<u8>::empty()
    }
}

pub fn trim_bytes(s: &[u8]) -> (v: Vec<u8>)
    ensures
        v@ == spec_trim(s@),
{
    let n = s.len();
    let mut lo: usize = 0;
    while lo < n && (s[lo] == 32 || s[lo] == 9 || s[lo] == 13)
        invariant
            lo <= n,
            n == s@.len(),
            first_non_space(s@, 0) == first_non_space(s@, lo as int),
        decreases n - lo,
    {
        lo += 1;
    }
    let mut hi: usize = n;
    while hi > 0 && (s[hi - 1] == 32 || s[hi - 1] == 9 || s[hi - 1] == 13)
        invariant
            hi <= n,
            n == s@.len(),
            last_non_space(s@, n as int) == last_non_space(s@, hi as int),
        decreases hi,
    {
        hi -= 1;
    }
    if lo <= hi {
        copy_range(s, lo, hi)
    } else {
        let v: Vec<u8> = Vec::new();
        v
    }
}

pub open spec fn is_key_byte(b: u8) -> bool {
    (97 <= b && b <= 122) || (65 <= b && b <= 90) || (48 <= b && b <= 57) || b == 95 || b == 45
}

/// A bare key: nonempty, letters, digits, `_` or `-`.
pub open spec fn is_bare_key(s: Seq<u8>) -> bool {
    s.len() > 0 && forall|i: int| 0 <= i < s.len() ==> is_key_byte(#[trigger] s[i])
}

fn check_bare_key(s: &[u8]) -> (r: bool)
    ensures
        r == is_bare_key(s@),
{
    if s.len() == 0 {
        return false;
    }
    let mut j: usize = 0;
    while j < s.len()
        invariant
            j <= s@.len(),
            forall|k: int| 0 <= k < j ==> is_key_byte(#[trigger] s@[k]),
        decreases s@.len() - j,
    {
        let b = s[j];
        if !((97 <= b && b <= 122) || (65 <= b && b <= 90) || (48 <= b && b <= 57) || b == 95
            || b == 45) {
            assert(!is_key_byte(s@[j as int]));
            return false;
        }
        j += 1;
    }
    true
}

pub(crate) fn eq_bytes(a: &[u8], b: &[u8]) -> (r: bool)
    ensures
        r == (a@ == b@),
{
    if a.len() != b.len() {
        assert(a@ != b@) by {
            assert(a@.len() != b@.len());
        }
        return false;
    }
    let mut j: usize = 0;
    while j < a.len()
        invariant
            j <= a@.len(),
            a@.len() == b@.len(),
            forall|k: int| 0 <= k < j ==> a@[k] == b@[k],
        decreases a@.len() - j,
    {
        if a[j] != b[j] {
            assert(a@[j as int] != b@[j as int]);
            return false;
        }
        j += 1;
    }
    proof {
        assert(a@ =~= b@);
    }
    true
}

pub open spec fn true_bytes() -> Seq<u8> {
    seq![116u8, 114u8, 117u8, 101u8]
}

pub open spec fn false_bytes() -> Seq<u8> {
    seq![102u8, 97u8, 108u8, 115u8, 101u8]
}

/// The key `debug`, as bytes.
pub open spec fn debug_key() -> Seq<u8> {
    seq![100u8, 101u8, 98u8, 117u8, 103u8]
}

/// The key `fixversion`, as bytes.
pub open spec fn fixversion_key() -> Seq<u8> {
    seq![102u8, 105u8, 120u8, 118u8, 101u8, 114u8, 115u8, 105u8, 111u8, 110u8]
}

pub(crate) fn make_true_bytes() -> (v: Vec<u8>)
    ensures
        v@ == true_bytes(),
{
    let mut v: Vec<u8> = Vec::new();
    v.push(116);
    v.push(114);
    v.push(117);
    v.push(101);
    proof {
        assert(v@ =~= true_bytes());
    }
    v
}

pub(crate) fn make_false_bytes() -> (v: Vec<u8>)
    ensures
        v@ == false_bytes(),
{
    let mut v: Vec<u8> = Vec::new();
    v.push(102);
    v.push(97);
    v.push(108);
    v.push(115);
    v.push(101);
    proof {
        assert(v@ =~= false_bytes());
    }
    v
}

pub(crate) fn make_debug_key() -> (v: Vec<u8>)
    ensures
        v@ == debug_key(),
{
    let mut v: Vec<u8> = Vec::new();
    v.push(100);
    v.push(101);
    v.push(98);
    v.push(117);
    v.push(103);
    proof {
        assert(v@ =~= debug_key());
    }
    v
}

pub(crate) fn make_fixversion_key() -> (v: Vec<u8>)
    ensures
        v@ == fixversion_key(),
{
    let mut v: Vec<u8> = Vec::new();
    v.push(102);
    v.push(105);
    v.push(120);
    v.push(118);
    v.push(101);
    v.push(114);
    v.push(115);
    v.push(105);
    v.push(111);
    v.push(110);
    proof {
        assert(v@ =~= fixversion_key());
    }
    v
}

/// A value is a quoted string (no interior quote, no escapes), one of the
/// boolean words, or a decimal literal.
pub open spec fn spec_parse_value(v: Seq<u8>) -> Option<SourceValueV> {
    if v.len() >= 2 && v[0] == 34u8 && v[v.len() - 1] == 34u8 && find_from(v, 34u8, 1) == v.len()
        - 1 {
        Some(SourceValueV::Text(v.subrange(1, v.len() - 1)))
    } else if v == true_bytes() {
        Some(SourceValueV::Bool(true))
    } else if v == false_bytes() {
        Some(SourceValueV::Bool(false))
    } else {
        match spec_parse_decimal(v) {
            Some(d) => Some(SourceValueV::Num(d)),
            None => None,
        }
    }
}

pub fn parse_value(v: &[u8]) -> (r: Option<SourceValue>)
    ensures
        match r {
            Some(sv) => spec_parse_value(v@) == Some(sv@),
            None => spec_parse_value(v@) is None,
        },
{
    let n = v.len();
    if n >= 2 && v[0] == 34 && v[n - 1] == 34 && find_byte(v, 34, 1) == n - 1 {
        return Some(SourceValue::Text(copy_range(v, 1, n - 1)));
    }
    if eq_bytes(v, make_true_bytes().as_slice()) {
        return Some(SourceValue::Bool(true));
    }
    if eq_bytes(v, make_false_bytes().as_slice()) {
        return Some(SourceValue::Bool(false));
    }
    match parse_decimal(v) {
        Some(d) => Some(SourceValue::Num(d)),
        None => None,
    }
}

/// One line of the file applied to the record built so far: blank lines and
/// `#` comments change nothing; a `key = value` line fills the matching key;
/// a malformed line, an unparsable value, or a repeated known key is an
/// error (`None`).
pub open spec fn spec_parse_line(line: Seq<u8>, acc: FileRecordV) -> Option<FileRecordV> {
    let t = spec_trim(line);
    if t.len() == 0 || t[0] == 35u8 {
        Some(acc)
    } else {
        let e = find_from(t, 61u8, 0);
        if e == t.len() {
            None
        } else {
            let key = spec_trim(t.subrange(0, e));
            let val = spec_trim(t.subrange(e + 1, t.len() as int));
            if !is_bare_key(key) {
                None
            } else {
                match spec_parse_value(val) {
                    None => None,
                    Some(v) => if key == debug_key() {
                        if acc.debug is Some {
                            None
                        } else {
                            Some(FileRecordV { debug: Some(v), fixversion: acc.fixversion })
                        }
                    } else if key == fixversion_key() {
                        if acc.fixversion is Some {
                            None
                        } else {
                            Some(FileRecordV { debug: acc.debug, fixversion: Some(v) })
                        }
                    } else {
                        Some(acc)
                    },
                }
            }
        }
    }
}

fn parse_line_step(line: &[u8], rec: FileRecord) -> (r: Option<FileRecord>)
    ensures
        match r {
            Some(r2) => spec_parse_line(line@, rec@) == Some(r2@),
            None => spec_parse_line(line@, rec@) is None,
        },
{
    let t = trim_bytes(line);
    if t.len() == 0 || t[0] == 35 {
        return Some(rec);
    }
    let e = find_byte(t.as_slice(), 61, 0);
    proof {
        lemma_find_from(t@, 61u8, 0);
    }
    if e == t.len() {
        return None;
    }
    let key = trim_bytes(copy_range(t.as_slice(), 0, e).as_slice());
    let val = trim_bytes(copy_range(t.as_slice(), e + 1, t.len()).as_slice());
    if !check_bare_key(key.as_slice()) {
        return None;
    }
    match parse_value(val.as_slice()) {
        None => None,
        Some(v) => {
            if eq_bytes(key.as_slice(), make_debug_key().as_slice()) {
                if rec.debug.is_some() {
                    None
                } else {
                    Some(FileRecord { debug: Some(v), fixversion: rec.fixversion })
                }
            } else if eq_bytes(key.as_slice(), make_fixversion_key().as_slice()) {
                if rec.fixversion.is_some() {
                    None
                } else {
                    Some(FileRecord { debug: rec.debug, fixversion: Some(v) })
                }
            } else {
                Some(rec)
            }
        },
    }
}

/// The file from line `i` onward, folded over `acc`.
pub open spec fn spec_parse_lines(s: Seq<u8>, i: int, acc: FileRecordV) -> Option<FileRecordV>
    decreases s.len() + 1 - i when 0 <= i <= s.len() + 1 via spec_parse_lines_decreases
{
    if i > s.len() {
        Some(acc)
    } else {
        let j = find_from(s, 10u8, i);
        match spec_parse_line(s.subrange(i, j), acc) {
            None => None,
            Some(a2) => spec_parse_lines(s, j + 1, a2),
        }
    }
}

#[via_fn]
proof fn spec_parse_lines_decreases(s: Seq<u8>, i: int, acc: FileRecordV) {
    if i <= s.len() {
        lemma_find_from(s, 10u8, i);
    }
}

/// The whole file source: every line parsed in order, starting from the
/// empty record. `None` is a syntax error.
pub open spec fn spec_parse_file(s: Seq<u8>) -> Option<FileRecordV> {
    spec_parse_lines(s, 0, empty_record())
}

/// Parses the key-value text of the file source, exactly as
/// `spec_parse_file` describes.
pub fn parse_file(s: &[u8]) -> (r: Option<FileRecord>)
    ensures
        match r {
            Some(rec) => spec_parse_file(s@) == Some(rec@),
            None => spec_parse_file(s@) is None,
        },
{
    let n = s.len();
    let mut i: usize = 0;
    let mut rec = FileRecord { debug: None, fixversion: None };
    proof {
        assert(rec@ == empty_record());
    }
    while i <= n
        invariant
            i <= n,
            n == s@.len(),
            spec_parse_file(s@) == spec_parse_lines(s@, i as int, rec@),
        decreases n - i,
    {
        let j = find_byte(s, 10, i);
        proof {
            lemma_find_from(s@, 10u8, i as int);
        }
        let line = copy_range(s, i, j);
        match parse_line_step(line.as_slice(), rec) {
            None => {
                return None;
            },
            Some(r2) => {
                rec = r2;
            },
        }
        if j == n {
            proof {
                assert(spec_parse_lines(s@, j + 1, rec@) == Some(rec@));
            }
            return Some(rec);
        }
        i = j + 1;
    }
    proof {
        assert(false);
    }
    None
}

} // verus!
