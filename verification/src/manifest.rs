//! The manifest model: one entry per file, serialized one per line as
//! `path<TAB>modified<TAB>size[<TAB>content-hash]`, UTF-8, LF line
//! endings, sorted by path in the case-insensitive, case-preserving
//! order.  The path begins with `/`, is relative to the backup root and
//! uses forward slashes.

use vstd::prelude::*;

use crate::error::LibError;
use crate::order::ci_le;
use crate::text::{
    dec_digits, dec_val, lemma_dec_round_trip, lemma_split_len, lemma_split_no_sep, no_char,
    parse_u64, spec_join, spec_split, split_by, u64_to_string, valid_size,
};
use crate::timestamp::{parse_timestamp, ts_seconds, valid_timestamp};

verus! {

/// One file of a manifest: the case-preserved path, the modified-time
/// text together with its total-second count, the byte count, and an
/// optional content hash (present in remote listings).
#[derive(Debug)]
pub struct FileEntry {
    /// Case-preserved path, forward slashes, relative to the root.
    pub path: String,
    /// Modified time as `%Y-%m-%dT%H:%M:%SZ` text.
    pub modified: String,
    /// Total seconds of `modified` on the shifted Gregorian time line.
    pub modified_seconds: u64,
    /// Byte count.
    pub size: u64,
    /// Hex digest of the content, when the listing carries one.
    pub content_hash: Option<String>,
}

impl FileEntry {
    /// Well-formed entry: the path is not empty and free of tabs and
    /// line breaks, the modified text is a valid timestamp and the
    /// second count matches it, the size has at most nineteen decimal
    /// digits, and a present hash is not empty and free of tabs and
    /// line breaks.
    pub open spec fn wf(self) -> bool {
        &&& self.path@.len() > 0
        &&& no_char(self.path@, '\t')
        &&& no_char(self.path@, '\n')
        &&& valid_timestamp(self.modified@)
        &&& self.modified_seconds as int == ts_seconds(self.modified@)
        &&& self.size < 10_000_000_000_000_000_000u64
        &&& match self.content_hash {
            Some(h) => h@.len() > 0 && no_char(h@, '\t') && no_char(h@, '\n'),
            None => true,
        }
    }

    /// An exact copy of the entry.
    pub fn duplicate(&self) -> (r: FileEntry)
        ensures
            r == *self,
    {
        FileEntry {
            path: self.path.clone(),
            modified: self.modified.clone(),
            modified_seconds: self.modified_seconds,
            size: self.size,
            content_hash: match &self.content_hash {
                Some(h) => Some(h.clone()),
                None => None,
            },
        }
    }

    /// Builds a well-formed entry from its fields, validating them.
    pub fn new(path: String, modified: String, size: u64, content_hash: Option<String>) -> (r:
        Result<FileEntry, LibError>)
        ensures
            r is Ok ==> r->Ok_0.wf(),
            r is Ok ==> r->Ok_0.path == path && r->Ok_0.modified == modified && r->Ok_0.size
                == size && r->Ok_0.content_hash == content_hash,
            r is Ok <==> {
                &&& path@.len() > 0
                &&& no_char(path@, '\t')
                &&& no_char(path@, '\n')
                &&& valid_timestamp(modified@)
                &&& size < 10_000_000_000_000_000_000u64
                &&& match content_hash {
                    Some(h) => h@.len() > 0 && no_char(h@, '\t') && no_char(h@, '\n'),
                    None => true,
                }
            },
    {
        if path.as_str().is_empty() || contains_char(path.as_str(), '\t') || contains_char(
            path.as_str(),
            '\n',
        ) {
            return Err(LibError::MalformedFields { line_number: 0 });
        }
        if size >= 10_000_000_000_000_000_000u64 {
            return Err(LibError::InvalidSize { line_number: 0 });
        }
        match &content_hash {
            Some(h) => {
                if h.as_str().is_empty() || contains_char(h.as_str(), '\t') || contains_char(
                    h.as_str(),
                    '\n',
                ) {
                    return Err(LibError::MalformedFields { line_number: 0 });
                }
            },
            None => {},
        }
        match parse_timestamp(modified.as_str()) {
            Some(seconds) => Ok(
                FileEntry { path, modified, modified_seconds: seconds, size, content_hash },
            ),
            None => Err(LibError::InvalidTimestamp { line_number: 0 }),
        }
    }
}

/// Tests whether the string contains the character.
pub fn contains_char(s: &str, c: char) -> (r: bool)
    ensures
        r == !no_char(s@, c),
{
    let n = s.unicode_len();
    let mut i: usize = 0;
    while i < n
        invariant
            0 <= i <= n,
            n == s@.len(),
            forall|k: int| 0 <= k < i ==> s@[k] != c,
        decreases n - i,
    {
        if s.get_char(i) == c {
            return true;
        }
        i = i + 1;
    }
    false
}

/// The line is a well-formed file-manifest line: three or four
/// tab-separated fields, no line break, a non-empty path, a valid
/// timestamp, a canonical size, and a non-empty hash when present.
pub open spec fn valid_file_line(l: Seq<char>) -> bool {
    let f = spec_split(l, '\t');
    &&& no_char(l, '\n')
    &&& (f.len() == 3 || f.len() == 4)
    &&& f[0].len() > 0
    &&& valid_timestamp(f[1])
    &&& valid_size(f[2])
    &&& (f.len() == 4 ==> f[3].len() > 0)
}

/// The entry holds exactly the fields of the line.
pub open spec fn entry_matches_line(e: FileEntry, l: Seq<char>) -> bool {
    let f = spec_split(l, '\t');
    &&& e.path@ == f[0]
    &&& e.modified@ == f[1]
    &&& e.modified_seconds as int == ts_seconds(f[1])
    &&& e.size as int == dec_val(f[2])
    &&& (f.len() == 3 ==> e.content_hash is None)
    &&& (f.len() == 4 ==> e.content_hash is Some && e.content_hash->0@ == f[3])
}

/// The error that a malformed file-manifest line reports: the field
/// shape first, then the timestamp, then the size.
pub open spec fn file_line_error(l: Seq<char>, line_number: usize) -> LibError {
    let f = spec_split(l, '\t');
    if !(no_char(l, '\n') && (f.len() == 3 || f.len() == 4) && f[0].len() > 0 && (f.len() == 4
        ==> f[3].len() > 0)) {
        LibError::MalformedFields { line_number }
    } else if !valid_timestamp(f[1]) {
        LibError::InvalidTimestamp { line_number }
    } else {
        LibError::InvalidSize { line_number }
    }
}

/// Parses one file-manifest line.
///
/// Returns the entry exactly when the line is well formed, and the
/// error that [`file_line_error`] names otherwise.  `line_number` is
/// only reported back in the error.
pub fn parse_file_line(line: &str, line_number: usize) -> (r: Result<FileEntry, LibError>)
    ensures
        r is Ok <==> valid_file_line(line@),
        r is Ok ==> entry_matches_line(r->Ok_0, line@) && r->Ok_0.wf(),
        r is Err ==> r->Err_0 == file_line_error(line@, line_number),
{
    proof {
        lemma_split_len(line@, '\t');
        lemma_split_no_sep(line@, '\t');
    }
    let fields = split_by(line, '\t');
    if contains_char(line, '\n') {
        return Err(LibError::MalformedFields { line_number });
    }
    if !(fields.len() == 3 || fields.len() == 4) {
        return Err(LibError::MalformedFields { line_number });
    }
    if fields[0].as_str().is_empty() {
        return Err(LibError::MalformedFields { line_number });
    }
    if fields.len() == 4 && fields[3].as_str().is_empty() {
        return Err(LibError::MalformedFields { line_number });
    }
    let seconds = match parse_timestamp(fields[1].as_str()) {
        Some(seconds) => seconds,
        None => {
            return Err(LibError::InvalidTimestamp { line_number });
        },
    };
    let size = match parse_u64(fields[2].as_str()) {
        Some(size) => size,
        None => {
            return Err(LibError::InvalidSize { line_number });
        },
    };
    proof {
        let f = spec_split(line@, '\t');
        crate::text::lemma_pow10_19_value();
        crate::text::lemma_dec_val_bound(f[2]);
        crate::text::lemma_pow10_monotonic(f[2].len() as int, 19);
        crate::text::lemma_split_parts_no_char(line@, '\t', '\n');
        assert(fields@[0]@ == f[0]);
        assert(fields@[1]@ == f[1]);
        assert(fields@[2]@ == f[2]);
        if f.len() == 4 {
            assert(fields@[3]@ == f[3]);
        }
    }
    let content_hash = if fields.len() == 4 {
        Some(fields[3].clone())
    } else {
        None
    };
    Ok(
        FileEntry {
            path: fields[0].clone(),
            modified: fields[1].clone(),
            modified_seconds: seconds,
            size,
            content_hash,
        },
    )
}

/// The serialized line of an entry:
/// `path<TAB>modified<TAB>size[<TAB>content-hash]`.
pub open spec fn spec_entry_line(e: FileEntry) -> Seq<char> {
    e.path@ + seq!['\t'] + e.modified@ + seq!['\t'] + dec_digits(e.size as int) + (
    match e.content_hash {
        Some(h) => seq!['\t'] + h@,
        None => Seq::empty(),
    })
}

/// Serializes one entry as its manifest line.
pub fn entry_to_line(e: &FileEntry) -> (r: String)
    ensures
        r@ =~~= spec_entry_line(*e),
{
    proof {
        reveal_strlit("\t");
    }
    let mut s = e.path.clone();
    s.append("\t");
    s.append(e.modified.as_str());
    s.append("\t");
    let digits = u64_to_string(e.size);
    s.append(digits.as_str());
    match &e.content_hash {
        Some(h) => {
            s.append("\t");
            s.append(h.as_str());
        },
        None => {},
    }
    s
}

/// A well-formed entry serializes to a well-formed line that parses
/// back to exactly the same fields: writing and re-reading a manifest
/// is the identity, entry by entry.
pub proof fn lemma_entry_line_round_trip(e: FileEntry)
    requires
        e.wf(),
    ensures
        valid_file_line(spec_entry_line(e)),
        entry_matches_line(e, spec_entry_line(e)),
        no_char(spec_entry_line(e), '\n'),
{
    let l = spec_entry_line(e);
    lemma_dec_round_trip(e.size as int);
    crate::text::lemma_pow10_19_value();
    lemma_dec_digits_len(e.size as int, 19);
    let head = e.path@ + seq!['\t'] + e.modified@ + seq!['\t'] + dec_digits(e.size as int);
    lemma_split_single(e.path@, '\t');
    lemma_split_append_clean(e.path@, e.modified@, '\t');
    assert(no_char(dec_digits(e.size as int), '\t')) by {
        assert forall|i: int| 0 <= i < dec_digits(e.size as int).len() implies dec_digits(
            e.size as int,
        )[i] != '\t' by {
            assert(crate::timestamp::is_digit(dec_digits(e.size as int)[i]));
        }
    }
    lemma_split_append_clean(e.path@ + seq!['\t'] + e.modified@, dec_digits(e.size as int), '\t');
    assert(spec_split(head, '\t') =~~= seq![e.path@, e.modified@, dec_digits(e.size as int)]);
    match e.content_hash {
        Some(h) => {
            lemma_split_append_clean(head, h@, '\t');
            assert(l =~= head + seq!['\t'] + h@);
            assert(spec_split(l, '\t') =~~= seq![
                e.path@,
                e.modified@,
                dec_digits(e.size as int),
                h@,
            ]);
            assert(no_char(l, '\n')) by {
                assert(forall|i: int|
                    0 <= i < dec_digits(e.size as int).len() ==> crate::timestamp::is_digit(
                        #[trigger] dec_digits(e.size as int)[i],
                    ));
            }
        },
        None => {
            assert(l =~= head);
            assert(no_char(l, '\n')) by {
                assert(forall|i: int|
                    0 <= i < dec_digits(e.size as int).len() ==> crate::timestamp::is_digit(
                        #[trigger] dec_digits(e.size as int)[i],
                    ));
            }
        },
    }
}

/// Splitting text that is free of the separator gives that one part.
pub proof fn lemma_split_single(s: Seq<char>, sep: char)
    requires
        no_char(s, sep),
    ensures
        spec_split(s, sep) =~~= seq![s],
    decreases s.len(),
{
    if s.len() == 0 {
        assert(spec_split(s, sep) =~~= seq![Seq::<char>::empty()]);
        assert(s =~= Seq::<char>::empty());
    } else {
        assert(no_char(s.drop_last(), sep));
        lemma_split_single(s.drop_last(), sep);
        assert(s.drop_last().push(s.last()) =~= s);
    }
}

/// Appending a separator and separator-free text appends one part.
pub proof fn lemma_split_append_clean(x: Seq<char>, b: Seq<char>, sep: char)
    requires
        no_char(b, sep),
    ensures
        spec_split(x + seq![sep] + b, sep) =~~= spec_split(x, sep).push(b),
    decreases b.len(),
{
    lemma_split_len(x, sep);
    if b.len() == 0 {
        assert(x + seq![sep] + b =~= x.push(sep));
        assert(x.push(sep).last() == sep);
        assert(x.push(sep).drop_last() =~= x);
        assert(spec_split(x.push(sep), sep) =~~= spec_split(x, sep).push(Seq::empty()));
        assert(b =~= Seq::<char>::empty());
    } else {
        assert(no_char(b.drop_last(), sep));
        lemma_split_append_clean(x, b.drop_last(), sep);
        let s2 = (x + seq![sep] + b.drop_last()).push(b.last());
        assert(x + seq![sep] + b =~= s2);
        assert(s2.last() == b.last());
        assert(s2.drop_last() =~= x + seq![sep] + b.drop_last());
        let p = spec_split(x + seq![sep] + b.drop_last(), sep);
        assert(p.last() == b.drop_last());
        assert(b.last() != sep);
        assert(spec_split(s2, sep) =~~= p.update(p.len() - 1, p.last().push(b.last())));
        assert(p.update(p.len() - 1, p.last().push(b.last())) =~~= spec_split(x, sep).push(
            b.drop_last().push(b.last()),
        ));
        assert(b.drop_last().push(b.last()) =~= b);
        assert(spec_split(x + seq![sep] + b, sep) =~~= spec_split(s2, sep));
    }
}

/// The digit count of a number below ten to the `k` is at most `k`.
pub proof fn lemma_dec_digits_len(n: int, k: int)
    requires
        0 <= n,
        1 <= k,
        n < crate::text::pow10(k),
    ensures
        dec_digits(n).len() <= k,
    decreases k,
{
    if n < 10 {
    } else {
        crate::text::lemma_pow10_positive(k - 1);
        lemma_dec_digits_len(n / 10, k - 1);
    }
}

/// The lines of a manifest text: split on LF, without a final empty
/// part, so a trailing line break and the empty text give no extra
/// line.
pub open spec fn spec_lines(t: Seq<char>) -> Seq<Seq<char>> {
    let p = spec_split(t, '\n');
    if p.last().len() == 0 {
        p.drop_last()
    } else {
        p
    }
}

/// Splits a manifest text into its lines.
pub fn lines_of(t: &str) -> (r: Vec<String>)
    ensures
        r.deep_view() =~~= spec_lines(t@),
{
    proof {
        lemma_split_len(t@, '\n');
    }
    let mut parts = split_by(t, '\n');
    let last_empty = parts[parts.len() - 1].as_str().is_empty();
    if last_empty {
        let _ = parts.pop();
        proof {
            assert(parts.deep_view() =~~= spec_split(t@, '\n').drop_last());
        }
    }
    parts
}

/// The manifest is sorted by path in the case-insensitive order.
pub open spec fn manifest_sorted(s: Seq<FileEntry>) -> bool {
    forall|i: int, j: int| 0 <= i < j < s.len() ==> ci_le(s[i].path@, s[j].path@)
}

/// The position of the first invalid line, or the length when every
/// line is valid.
pub open spec fn least_invalid(lines: Seq<Seq<char>>) -> int
    decreases lines.len(),
{
    if lines.len() == 0 {
        0
    } else if !valid_file_line(lines[0]) {
        0
    } else {
        1 + least_invalid(lines.skip(1))
    }
}

/// When the lines before `i` are valid and line `i` is not, `i` is the
/// first invalid position.
pub proof fn lemma_least_invalid_at(lines: Seq<Seq<char>>, i: int)
    requires
        0 <= i < lines.len(),
        forall|k: int| 0 <= k < i ==> valid_file_line(#[trigger] lines[k]),
        !valid_file_line(lines[i]),
    ensures
        least_invalid(lines) == i,
    decreases i,
{
    if i == 0 {
    } else {
        assert(forall|k: int| 0 <= k < i - 1 ==> valid_file_line(#[trigger] lines.skip(1)[k]));
        assert(lines.skip(1)[i - 1] == lines[i]);
        lemma_least_invalid_at(lines.skip(1), i - 1);
    }
}

/// Parses a whole manifest text, line by line.
///
/// Returns one entry per line exactly when every line is well formed;
/// otherwise the error of the first malformed line, with its one-based
/// line number.
pub fn parse_manifest(t: &str) -> (r: Result<Vec<FileEntry>, LibError>)
    ensures
        r is Ok <==> (forall|k: int|
            0 <= k < spec_lines(t@).len() ==> valid_file_line(#[trigger] spec_lines(t@)[k])),
        r is Ok ==> {
            &&& r->Ok_0.len() == spec_lines(t@).len()
            &&& forall|k: int|
                0 <= k < spec_lines(t@).len() ==> entry_matches_line(
                    #[trigger] r->Ok_0@[k],
                    spec_lines(t@)[k],
                ) && r->Ok_0@[k].wf()
        },
        r is Err ==> r->Err_0 == file_line_error(
            spec_lines(t@)[least_invalid(spec_lines(t@))],
            (least_invalid(spec_lines(t@)) + 1) as usize,
        ),
{
    let lines = lines_of(t);
    let mut entries: Vec<FileEntry> = Vec::new();
    let mut i: usize = 0;
    while i < lines.len()
        invariant
            0 <= i <= lines.len(),
            lines.deep_view() =~~= spec_lines(t@),
            entries.len() == i,
            forall|k: int| 0 <= k < i ==> valid_file_line(#[trigger] spec_lines(t@)[k]),
            forall|k: int|
                0 <= k < i ==> entry_matches_line(#[trigger] entries@[k], spec_lines(t@)[k])
                    && entries@[k].wf(),
        decreases lines.len() - i,
    {
        match parse_file_line(lines[i].as_str(), i + 1) {
            Ok(e) => {
                entries.push(e);
            },
            Err(err) => {
                proof {
                    lemma_least_invalid_at(spec_lines(t@), i as int);
                }
                return Err(err);
            },
        }
        i = i + 1;
    }
    Ok(entries)
}

/// Splitting a join of separator-free parts gives the parts back.
pub proof fn lemma_split_join(parts: Seq<Seq<char>>, sep: char)
    requires
        parts.len() >= 1,
        forall|k: int| 0 <= k < parts.len() ==> no_char(#[trigger] parts[k], sep),
    ensures
        spec_split(spec_join(parts, seq![sep]), sep) =~~= parts,
    decreases parts.len(),
{
    if parts.len() == 1 {
        lemma_split_single(parts[0], sep);
        assert(spec_join(parts, seq![sep]) == parts[0]);
        assert(seq![parts[0]] =~~= parts);
    } else {
        assert(forall|k: int|
            0 <= k < parts.drop_last().len() ==> no_char(#[trigger] parts.drop_last()[k], sep));
        lemma_split_join(parts.drop_last(), sep);
        let head = spec_join(parts.drop_last(), seq![sep]);
        lemma_split_append_clean(head, parts.last(), sep);
        assert(spec_join(parts, seq![sep]) == head + seq![sep] + parts.last());
        assert(spec_split(spec_join(parts, seq![sep]), sep) =~~= spec_split(head, sep).push(
            parts.last(),
        ));
        assert(parts.drop_last().push(parts.last()) =~= parts);
    }
}

/// Persistence round trip: serializing well-formed entries and
/// splitting the text back into lines gives one well-formed line per
/// entry, and each line parses back to exactly the fields of its
/// entry.  Writing a manifest and re-reading it is the identity.
pub proof fn lemma_manifest_round_trip(entries: Seq<FileEntry>)
    requires
        forall|k: int| 0 <= k < entries.len() ==> (#[trigger] entries[k]).wf(),
    ensures
        ({
            let lines = spec_lines(spec_manifest_text(entries));
            &&& lines.len() == entries.len()
            &&& forall|k: int|
                0 <= k < entries.len() ==> valid_file_line(#[trigger] lines[k])
                    && entry_matches_line(entries[k], lines[k])
        }),
{
    let parts = entry_lines(entries);
    assert forall|k: int| 0 <= k < entries.len() implies valid_file_line(#[trigger] parts[k])
        && entry_matches_line(entries[k], parts[k]) && no_char(parts[k], '\n') && parts[k].len()
        > 0 by {
        lemma_entry_line_round_trip(entries[k]);
        assert(parts[k] == spec_entry_line(entries[k]));
        assert(spec_entry_line(entries[k]).len() > 0);
    }
    if entries.len() == 0 {
        assert(parts.len() == 0);
        assert(spec_manifest_text(entries) == Seq::<char>::empty());
        assert(spec_split(Seq::<char>::empty(), '\n') =~~= seq![Seq::<char>::empty()]);
        assert(spec_lines(spec_manifest_text(entries)).len() == 0);
    } else {
        lemma_split_join(parts, '\n');
        let text = spec_manifest_text(entries);
        assert(text == spec_join(parts, seq!['\n']));
        assert(spec_split(text, '\n') =~~= parts);
        assert(spec_split(text, '\n').last().len() > 0);
        assert(spec_lines(text) =~~= parts);
    }
}

/// The serialized lines of the entries, one each, in order.
pub open spec fn entry_lines(entries: Seq<FileEntry>) -> Seq<Seq<char>> {
    entries.map(|i: int, e: FileEntry| spec_entry_line(e))
}

/// The serialized manifest: the entry lines joined with LF, without a
/// trailing line break.
pub open spec fn spec_manifest_text(entries: Seq<FileEntry>) -> Seq<char> {
    spec_join(entry_lines(entries), seq!['\n'])
}

/// Serializes a whole manifest, one line per entry.
pub fn manifest_to_string(entries: &Vec<FileEntry>) -> (r: String)
    ensures
        r@ =~~= spec_manifest_text(entries@),
{
    proof {
        reveal_strlit("\n");
    }
    let mut lines: Vec<String> = Vec::new();
    let mut i: usize = 0;
    while i < entries.len()
        invariant
            0 <= i <= entries.len(),
            lines.deep_view() =~~= entry_lines(entries@.subrange(0, i as int)),
        decreases entries.len() - i,
    {
        let line = entry_to_line(&entries[i]);
        lines.push(line);
        proof {
            assert(entry_lines(entries@.subrange(0, i as int + 1)) =~~= entry_lines(
                entries@.subrange(0, i as int),
            ).push(spec_entry_line(entries@[i as int])));
        }
        i = i + 1;
    }
    proof {
        assert(entries@.subrange(0, entries@.len() as int) =~= entries@);
        reveal_strlit("\n");
        assert("\n"@ =~= seq!['\n']);
    }
    crate::text::join_with(&lines, "\n")
}

} // verus!
