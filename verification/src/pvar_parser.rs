//! The metadata micro-language parser: header description lines and
//! semicolon-delimited INFO cells. Both grammars work on one line of text
//! at a time and keep no state between lines.

use vstd::prelude::*;
use vstd::string::*;
use crate::info_map::InfoFieldMap;
use crate::metadata::is_comment;
use crate::metadata::is_comment_line;
use crate::text::chars_of;
use crate::text::column;
use crate::text::contains_text;
use crate::text::field_of;
use crate::text::find_char;
use crate::text::find_text;
use crate::text::first_match;
use crate::text::has_at;
use crate::text::index_of;
use crate::text::lemma_first_match;
use crate::text::lemma_index_of;
use crate::text::line_end;
use crate::text::line_end_of;
use crate::text::starts_with;
use crate::text::string_of;
use crate::text::views;

verus! {

/// The parser of the two annotation grammars.
pub struct PvarParser;

/// The id and the description of one header description line.
pub struct MetaDescription {
    pub id: String,
    pub description: String,
}

/// A column of a variant line, in file order.
#[derive(Clone, Copy, Debug, PartialEq, Eq, Structural)]
pub enum LineColumn {
    Chrom,
    Pos,
    Id,
    Ref,
    Alt,
    Qual,
    Filter,
    Info,
}

impl LineColumn {
    /// Position of the column in a line, from zero.
    pub open spec fn index(self) -> nat {
        match self {
            LineColumn::Chrom => 0,
            LineColumn::Pos => 1,
            LineColumn::Id => 2,
            LineColumn::Ref => 3,
            LineColumn::Alt => 4,
            LineColumn::Qual => 5,
            LineColumn::Filter => 6,
            LineColumn::Info => 7,
        }
    }

    /// Position of the column in a line, from zero.
    pub fn position(&self) -> (at: usize)
        ensures
            at == self.index(),
    {
        match self {
            LineColumn::Chrom => 0,
            LineColumn::Pos => 1,
            LineColumn::Id => 2,
            LineColumn::Ref => 3,
            LineColumn::Alt => 4,
            LineColumn::Qual => 5,
            LineColumn::Filter => 6,
            LineColumn::Info => 7,
        }
    }
}

/// How a header description line opens, up to the id.
pub open spec fn info_prefix() -> Seq<char> {
    "##INFO=<ID="@
}

/// What stands between the fields before the description and its text.
pub open spec fn description_key() -> Seq<char> {
    ",Description=\""@
}

/// Position of the first `,` or `>` in `s` at or after `from`, or the
/// length of `s` where there is none.
pub open spec fn delimiter_end(s: Seq<char>, from: int) -> int
    decreases s.len() - from,
{
    if from >= s.len() {
        s.len() as int
    } else if s[from] == ',' || s[from] == '>' {
        from
    } else {
        delimiter_end(s, from + 1)
    }
}

/// Position of the quote that closes a quoted text whose first character
/// stands at `from`: the first `"` that no backslash escapes. A backslash
/// escapes the character after it. The length of `s` where no quote closes
/// the text.
pub open spec fn quote_end(s: Seq<char>, from: int) -> int
    decreases s.len() - from,
{
    if from >= s.len() {
        s.len() as int
    } else if s[from] == '"' {
        from
    } else if s[from] == '\\' {
        if from + 1 >= s.len() {
            s.len() as int
        } else {
            quote_end(s, from + 2)
        }
    } else {
        quote_end(s, from + 1)
    }
}

/// The bounds of the id and of the description in a header description
/// line without line terminator, or `None` where the line is none.
///
/// Such a line opens with `##INFO=<ID=`. The id runs up to the next `,`
/// or `>`, is not empty and ends at a `,`. The description is the quoted
/// text behind the first `,Description="` after the id, and the quote that
/// closes it is followed by `>` and the end of the line.
pub open spec fn meta_bounds(body: Seq<char>) -> Option<(int, int, int, int)> {
    let id_start = info_prefix().len() as int;
    let id_end = delimiter_end(body, id_start);
    if !starts_with(body, info_prefix()) {
        None
    } else if id_end == id_start || id_end >= body.len() || body[id_end] != ',' {
        None
    } else {
        match first_match(body, description_key(), id_end) {
            None => None,
            Some(key_at) => {
                let text_start = key_at + description_key().len();
                let text_end = quote_end(body, text_start);
                if text_end + 2 == body.len() && body[text_end] == '"' && body[text_end + 1]
                    == '>' {
                    Some((id_start, id_end, text_start, text_end))
                } else {
                    None
                }
            },
        }
    }
}

/// The id and the description of a header description line, the line
/// terminator set aside, or `None` where the line does not match.
pub open spec fn meta_description(line: Seq<char>) -> Option<(Seq<char>, Seq<char>)> {
    let body = line.take(line_end(line));
    match meta_bounds(body) {
        None => None,
        Some((a, b, c, d)) => Some((body.subrange(a, b), body.subrange(c, d))),
    }
}

/// The pair that the segment `s[from..end]` of an INFO cell stands for: a
/// key and its value where it holds `=`, split at the first one; a key
/// with an empty value where it holds none; `None` where the key would be
/// empty.
pub open spec fn segment_pair(s: Seq<char>, from: int, end: int) -> Option<(Seq<char>, Seq<char>)> {
    let eq = index_of(s.take(end), '=', from);
    if eq == from {
        None
    } else if eq >= end {
        Some((s.subrange(from, end), Seq::empty()))
    } else {
        Some((s.subrange(from, eq), s.subrange(eq + 1, end)))
    }
}

/// The pairs of the well-formed segments of `s[from..]`, in order. A
/// segment ends at the next `;` or at the end of the cell.
pub open spec fn info_pairs(s: Seq<char>, from: int) -> Seq<(Seq<char>, Seq<char>)>
    decreases s.len() - from,
{
    if from < 0 || from > s.len() {
        Seq::empty()
    } else {
        let end = index_of(s, ';', from);
        let head = match segment_pair(s, from, end) {
            Some(pair) => seq![pair],
            None => Seq::empty(),
        };
        if end >= s.len() {
            head
        } else {
            proof {
                lemma_index_of(s, ';', from);
            }
            head + info_pairs(s, end + 1)
        }
    }
}

/// The map that storing `pairs` in order gives: a later value for a key
/// takes the place of an earlier one.
pub open spec fn info_map(pairs: Seq<(Seq<char>, Seq<char>)>) -> Map<Seq<char>, Seq<char>>
    decreases pairs.len(),
{
    if pairs.len() == 0 {
        Map::empty()
    } else {
        info_map(pairs.drop_last()).insert(pairs.last().0, pairs.last().1)
    }
}

/// The keys of `pairs` in the order in which each comes first.
pub open spec fn first_keys(pairs: Seq<(Seq<char>, Seq<char>)>) -> Seq<Seq<char>>
    decreases pairs.len(),
{
    if pairs.len() == 0 {
        Seq::empty()
    } else if info_map(pairs.drop_last()).contains_key(pairs.last().0) {
        first_keys(pairs.drop_last())
    } else {
        first_keys(pairs.drop_last()).push(pairs.last().0)
    }
}

/// The text behind the first occurrence of `key` in `s`, up to the next
/// `;` or the end of `s`.
pub open spec fn value_after(s: Seq<char>, key: Seq<char>) -> Option<Seq<char>> {
    match first_match(s, key, 0) {
        None => None,
        Some(at) => Some(s.subrange(at + key.len(), index_of(s, ';', at + key.len()))),
    }
}

/// The bullet that lists a header description: its id and its text.
pub open spec fn bullet(id: Seq<char>, text: Seq<char>) -> Seq<char> {
    "- "@ + id + ": "@ + text
}

/// The bullets of the header description lines of `lines[from..]` that
/// come before the first line that opens with `#CHROM`. A line that opens
/// with `##INFO=` and does not match the grammar is skipped.
pub open spec fn bullets(lines: Seq<Seq<char>>, from: int) -> Seq<Seq<char>>
    decreases lines.len() - from,
{
    if from < 0 || from >= lines.len() {
        Seq::empty()
    } else if starts_with(lines[from], "##INFO="@) {
        match meta_description(lines[from]) {
            Some((id, text)) => seq![bullet(id, text)] + bullets(lines, from + 1),
            None => bullets(lines, from + 1),
        }
    } else if starts_with(lines[from], "#CHROM"@) {
        Seq::empty()
    } else {
        bullets(lines, from + 1)
    }
}

/// The ids of the header description lines of `lines[from..]` that come
/// before the first other line that holds `#CHROM`.
pub open spec fn id_names(lines: Seq<Seq<char>>, from: int) -> Seq<Seq<char>>
    decreases lines.len() - from,
{
    if from < 0 || from >= lines.len() {
        Seq::empty()
    } else {
        match meta_description(lines[from]) {
            Some((id, _)) => seq![id] + id_names(lines, from + 1),
            None => if contains_text(lines[from], "#CHROM"@) {
                Seq::empty()
            } else {
                id_names(lines, from + 1)
            },
        }
    }
}

/// The INFO cells of the lines of `lines[from..]` that are no comments and
/// have such a cell.
pub open spec fn info_cells(lines: Seq<Seq<char>>, from: int) -> Seq<Seq<char>>
    decreases lines.len() - from,
{
    if from < 0 || from >= lines.len() {
        Seq::empty()
    } else if !is_comment(lines[from]) && column(lines[from], LineColumn::Info.index()) is Some {
        seq![column(lines[from], LineColumn::Info.index()).unwrap()] + info_cells(lines, from + 1)
    } else {
        info_cells(lines, from + 1)
    }
}

fn find_delimiter(chars: &Vec<char>, from: usize) -> (at: usize)
    requires
        from <= chars.len(),
    ensures
        at == delimiter_end(chars@, from as int),
        from <= at <= chars.len(),
{
    let mut i: usize = from;
    while i < chars.len() && chars[i] != ',' && chars[i] != '>'
        invariant
            from <= i <= chars.len(),
            delimiter_end(chars@, from as int) == delimiter_end(chars@, i as int),
        decreases chars.len() - i,
    {
        i += 1;
    }
    i
}

fn find_quote_end(chars: &Vec<char>, from: usize) -> (at: usize)
    requires
        from <= chars.len(),
    ensures
        at == quote_end(chars@, from as int),
        from <= at <= chars.len(),
{
    let n = chars.len();
    let mut i: usize = from;
    while i < n && chars[i] != '"'
        invariant
            from <= i <= n == chars.len(),
            quote_end(chars@, from as int) == quote_end(chars@, i as int),
        decreases n - i,
    {
        if chars[i] == '\\' {
            if n - i <= 1 {
                return n;
            }
            i += 2;
        } else {
            i += 1;
        }
    }
    i
}

/// Matches a line, given as its characters without line terminator,
/// against the header description grammar.
fn match_meta(body: &Vec<char>) -> (bounds: Option<(usize, usize, usize, usize)>)
    ensures
        match bounds {
            Some((a, b, c, d)) => meta_bounds(body@) == Some((a as int, b as int, c as int, d as int))
                && a <= b <= c <= d <= body.len(),
            None => meta_bounds(body@) is None,
        },
{
    let prefix = chars_of("##INFO=<ID=");
    let key = chars_of(",Description=\"");
    if !has_at(body, 0, &prefix) {
        return None;
    }
    let id_start = prefix.len();
    let id_end = find_delimiter(body, id_start);
    if id_end == id_start || id_end >= body.len() || body[id_end] != ',' {
        return None;
    }
    match find_text(body, &key, id_end) {
        None => None,
        Some(key_at) => {
            let text_start = key_at + key.len();
            let text_end = find_quote_end(body, text_start);
            if body.len() - text_end == 2 && body[text_end] == '"' && body[text_end + 1] == '>' {
                Some((id_start, id_end, text_start, text_end))
            } else {
                None
            }
        },
    }
}

fn line_body(input: &str) -> (body: Vec<char>)
    ensures
        body@ == input@.take(line_end(input@)),
{
    let mut body = chars_of(input);
    let end = line_end_of(&body);
    body.truncate(end);
    body
}

impl PvarParser {
    /// The part of `input` from byte `start_index` on. `None` where the
    /// index is not inside `input` or does not fall between two characters.
    pub fn get_substring_from_index(input: &str, start_index: usize) -> (rest: Option<&str>)
        ensures
            match rest {
                Some(text) => start_index < input.len() && input.is_char_boundary(start_index)
                    && text.spec_bytes() == input.spec_bytes().skip(start_index as int),
                None => !(start_index < input.len() && input.is_char_boundary(start_index)),
            },
    {
        if start_index < input.len() && input.is_char_boundary(start_index) {
            let (_, rest) = input.split_at(start_index);
            Some(rest)
        } else {
            None
        }
    }

    /// Parses a header description line.
    pub fn parse_meta_description(input: &str) -> (parsed: Option<MetaDescription>)
        ensures
            match parsed {
                Some(m) => meta_description(input@) == Some((m.id@, m.description@)),
                None => meta_description(input@) is None,
            },
    {
        let body = line_body(input);
        match match_meta(&body) {
            None => None,
            Some((a, b, c, d)) => Some(
                MetaDescription {
                    id: string_of(&body, a, b),
                    description: string_of(&body, c, d),
                },
            ),
        }
    }

    /// The id of a header description line.
    pub fn get_meta_idname(input: &str) -> (id: Option<String>)
        ensures
            match id {
                Some(name) => meta_description(input@) matches Some((i, _)) && name@ == i,
                None => meta_description(input@) is None,
            },
    {
        match PvarParser::parse_meta_description(input) {
            Some(m) => Some(m.id),
            None => None,
        }
    }

    /// The id and the description of a header description line, both
    /// empty where the line does not match the grammar.
    pub fn get_meta_descs(input: &str) -> (pair: (String, String))
        ensures
            match meta_description(input@) {
                Some((id, text)) => pair.0@ == id && pair.1@ == text,
                None => pair.0@ == Seq::<char>::empty() && pair.1@ == Seq::<char>::empty(),
            },
    {
        match PvarParser::parse_meta_description(input) {
            Some(m) => (m.id, m.description),
            None => (String::new(), String::new()),
        }
    }

    /// Lists the header description lines of a variant metadata file as
    /// bullets, up to the column-header line. Lines that do not match the
    /// grammar are skipped.
    pub fn format_descriptions(lines: &Vec<String>) -> (listed: Vec<String>)
        ensures
            views(listed@) == bullets(views(lines@), 0),
    {
        let ghost all = views(lines@);
        let info = chars_of("##INFO=");
        let chrom = chars_of("#CHROM");
        let mut listed: Vec<String> = Vec::new();
        let mut i: usize = 0;
        while i < lines.len()
            invariant
                i <= lines.len(),
                all == views(lines@),
                info@ == "##INFO="@,
                chrom@ == "#CHROM"@,
                bullets(all, 0) == views(listed@) + bullets(all, i as int),
            decreases lines.len() - i,
        {
            let line = lines[i].as_str();
            let chars = chars_of(line);
            let ghost before = views(listed@);
            if has_at(&chars, 0, &info) {
                match PvarParser::parse_meta_description(line) {
                    Some(m) => {
                        let mut entry = String::new();
                        entry.append("- ");
                        entry.append(m.id.as_str());
                        entry.append(": ");
                        entry.append(m.description.as_str());
                        let ghost b = bullet(m.id@, m.description@);
                        assert(entry@ == b);
                        listed.push(entry);
                        assert(views(listed@) =~= before.push(b));
                        assert(before.push(b) + bullets(all, i + 1) =~= before + (seq![b] + bullets(
                            all,
                            i + 1,
                        )));
                    },
                    None => {},
                }
            } else if has_at(&chars, 0, &chrom) {
                assert(views(listed@) + Seq::<Seq<char>>::empty() =~= views(listed@));
                return listed;
            }
            i += 1;
        }
        assert(views(listed@) + Seq::<Seq<char>>::empty() =~= views(listed@));
        listed
    }

    /// Collects the ids of the header description lines of a variant
    /// metadata file, up to the column-header line.
    pub fn get_meta_idnames(lines: &Vec<String>) -> (names: Vec<String>)
        ensures
            views(names@) == id_names(views(lines@), 0),
    {
        let ghost all = views(lines@);
        let chrom = chars_of("#CHROM");
        let mut names: Vec<String> = Vec::new();
        let mut i: usize = 0;
        while i < lines.len()
            invariant
                i <= lines.len(),
                all == views(lines@),
                chrom@ == "#CHROM"@,
                id_names(all, 0) == views(names@) + id_names(all, i as int),
            decreases lines.len() - i,
        {
            let line = lines[i].as_str();
            let ghost before = views(names@);
            match PvarParser::get_meta_idname(line) {
                Some(name) => {
                    let ghost id = name@;
                    names.push(name);
                    assert(views(names@) =~= before.push(id));
                    assert(before.push(id) + id_names(all, i + 1) =~= before + (seq![id]
                        + id_names(all, i + 1)));
                },
                None => {
                    let chars = chars_of(line);
                    if find_text(&chars, &chrom, 0).is_some() {
                        assert(views(names@) + Seq::<Seq<char>>::empty() =~= views(names@));
                        return names;
                    }
                },
            }
            i += 1;
        }
        assert(views(names@) + Seq::<Seq<char>>::empty() =~= views(names@));
        names
    }

    /// The given column of a variant line.
    pub fn get_line_entry(input: &str, entry: LineColumn) -> (cell: Option<String>)
        ensures
            match cell {
                Some(text) => column(input@, entry.index()) == Some(text@),
                None => column(input@, entry.index()) is None,
            },
    {
        let chars = chars_of(input);
        let end = line_end_of(&chars);
        match field_of(&chars, '\t', 0, end, entry.position()) {
            Some((a, b)) => Some(string_of(&chars, a, b)),
            None => None,
        }
    }

    /// The INFO cell of a variant line.
    pub fn get_info_line(input: &str) -> (cell: Option<String>)
        ensures
            match cell {
                Some(text) => column(input@, LineColumn::Info.index()) == Some(text@),
                None => column(input@, LineColumn::Info.index()) is None,
            },
    {
        PvarParser::get_line_entry(input, LineColumn::Info)
    }

    /// Collects the INFO cells of the data lines of a variant metadata file.
    pub fn get_info_lines(lines: &Vec<String>) -> (cells: Vec<String>)
        ensures
            views(cells@) == info_cells(views(lines@), 0),
    {
        let ghost all = views(lines@);
        let mut cells: Vec<String> = Vec::new();
        let mut i: usize = 0;
        while i < lines.len()
            invariant
                i <= lines.len(),
                all == views(lines@),
                info_cells(all, 0) == views(cells@) + info_cells(all, i as int),
            decreases lines.len() - i,
        {
            let line = lines[i].as_str();
            let ghost before = views(cells@);
            if !is_comment_line(line) {
                match PvarParser::get_info_line(line) {
                    Some(cell) => {
                        let ghost text = cell@;
                        cells.push(cell);
                        assert(views(cells@) =~= before.push(text));
                        assert(before.push(text) + info_cells(all, i + 1) =~= before + (seq![text]
                            + info_cells(all, i + 1)));
                    },
                    None => {},
                }
            }
            i += 1;
        }
        assert(views(cells@) + Seq::<Seq<char>>::empty() =~= views(cells@));
        cells
    }

    /// Parses an INFO cell into its map of annotations. A segment without
    /// a key is skipped; a key that comes twice keeps its last value.
    pub fn get_info_kv_pairs(input: &str) -> (map: InfoFieldMap)
        ensures
            map.wf(),
            map@ == info_map(info_pairs(input@, 0)),
            map.key_order() == first_keys(info_pairs(input@, 0)),
    {
        let chars = chars_of(input);
        let n = chars.len();
        let mut map = InfoFieldMap::new();
        let ghost mut done: Seq<(Seq<char>, Seq<char>)> = Seq::empty();
        let mut from: usize = 0;
        assert(chars@.take(n as int) == chars@);
        assert(done + info_pairs(chars@, 0) =~= info_pairs(chars@, 0));
        loop
            invariant
                from <= n == chars.len(),
                chars@ == input@,
                chars@.take(n as int) == chars@,
                map.wf(),
                map@ == info_map(done),
                map.key_order() == first_keys(done),
                info_pairs(chars@, 0) == done + info_pairs(chars@, from as int),
            decreases n - from,
        {
            let end = find_char(&chars, ';', from, n);
            let eq = find_char(&chars, '=', from, end);
            let ghost before = done;
            if eq != from {
                let key = string_of(&chars, from, eq);
                let value = if eq < end {
                    string_of(&chars, eq + 1, end)
                } else {
                    String::new()
                };
                proof {
                    done = done.push((key@, value@));
                    assert(done.drop_last() == before);
                    assert(segment_pair(chars@, from as int, end as int) == Some((key@, value@)));
                }
                map.insert(key, value);
            }
            if end >= n {
                assert(info_pairs(chars@, 0) =~= done);
                return map;
            }
            assert(before + (done.skip(before.len() as int) + info_pairs(chars@, end + 1)) =~= done
                + info_pairs(chars@, end + 1));
            from = end + 1;
        }
    }

    /// The text that follows the first occurrence of `keyname` in an INFO
    /// cell, up to the end of its segment.
    pub fn find_kv_pair(input: &str, keyname: &str) -> (value: Option<String>)
        ensures
            match value {
                Some(text) => value_after(input@, keyname@) == Some(text@),
                None => value_after(input@, keyname@) is None,
            },
    {
        let chars = chars_of(input);
        let key = chars_of(keyname);
        match find_text(&chars, &key, 0) {
            None => None,
            Some(at) => {
                let start = at + key.len();
                let end = find_char(&chars, ';', start, chars.len());
                assert(chars@.take(chars.len() as int) == chars@);
                Some(string_of(&chars, start, end))
            },
        }
    }

    /// Whether the first occurrence of `keyname` in an INFO cell ends its
    /// segment, as a flag does.
    pub fn find_key(input: &str, keyname: &str) -> (found: bool)
        ensures
            found == (value_after(input@, keyname@) == Some(Seq::<char>::empty())),
    {
        let chars = chars_of(input);
        let key = chars_of(keyname);
        match find_text(&chars, &key, 0) {
            None => false,
            Some(at) => {
                let start = at + key.len();
                let end = find_char(&chars, ';', start, chars.len());
                assert(chars@.take(chars.len() as int) == chars@);
                assert(chars@.subrange(start as int, end as int).len() == end - start);
                if end == start {
                    assert(chars@.subrange(start as int, end as int) =~= Seq::<char>::empty());
                }
                end == start
            },
        }
    }
}

/// `delimiter_end` lands on the first `,` or `>` at or after `from`.
pub proof fn lemma_delimiter_end(s: Seq<char>, from: int)
    requires
        0 <= from <= s.len(),
    ensures
        from <= delimiter_end(s, from) <= s.len(),
        forall|j: int| from <= j < delimiter_end(s, from) ==> s[j] != ',' && s[j] != '>',
    decreases s.len() - from,
{
    if from < s.len() && s[from] != ',' && s[from] != '>' {
        lemma_delimiter_end(s, from + 1);
    }
}

/// `quote_end` lands at or after `from` and within the text.
pub proof fn lemma_quote_end(s: Seq<char>, from: int)
    requires
        0 <= from <= s.len(),
    ensures
        from <= quote_end(s, from) <= s.len(),
    decreases s.len() - from,
{
    if from < s.len() && s[from] != '"' {
        if s[from] == '\\' {
            if from + 1 < s.len() {
                lemma_quote_end(s, from + 2);
            }
        } else {
            lemma_quote_end(s, from + 1);
        }
    }
}

/// Whether `body` reads: the opening up to the id, `id`, `middle`, the
/// description key, `text`, and the closing quote and bracket.
pub open spec fn reads_as(body: Seq<char>, id: Seq<char>, middle: Seq<char>, text: Seq<char>) -> bool {
    body == info_prefix() + id + middle + description_key() + text + seq!['"', '>']
}

/// A line that matches the header description grammar reads, without its
/// line terminator: the opening up to the id; the id, which is not empty
/// and holds neither `,` nor `>`; any text; the description key; the
/// description; and the closing quote and bracket.
pub proof fn lemma_meta_description_shape(line: Seq<char>)
    requires
        meta_description(line) is Some,
    ensures
        meta_description(line).unwrap().0.len() > 0,
        forall|j: int|
            0 <= j < meta_description(line).unwrap().0.len() ==> meta_description(
                line,
            ).unwrap().0[j] != ',' && meta_description(line).unwrap().0[j] != '>',
        exists|middle: Seq<char>|
            #[trigger] reads_as(
                line.take(line_end(line)),
                meta_description(line).unwrap().0,
                middle,
                meta_description(line).unwrap().1,
            ),
{
    let body = line.take(line_end(line));
    let n = body.len() as int;
    let (a, b, c, d) = meta_bounds(body).unwrap();
    let key = description_key();
    let key_at = first_match(body, key, b).unwrap();
    assert(a == info_prefix().len());
    assert(body.subrange(0, a) == info_prefix());
    lemma_delimiter_end(body, a);
    assert(a < b < n);
    lemma_first_match(body, key, b);
    assert(b <= key_at && c == key_at + key.len() && c <= n);
    assert(body.subrange(key_at, c) == key);
    lemma_quote_end(body, c);
    assert(c <= d && d + 2 == n);
    let id = body.subrange(a, b);
    let text = body.subrange(c, d);
    let middle = body.subrange(b, key_at);
    let tail = seq!['"', '>'];
    assert(body.subrange(d, n) =~= tail);
    assert forall|j: int| 0 <= j < id.len() implies id[j] != ',' && id[j] != '>' by {
        assert(id[j] == body[a + j]);
    }
    assert(body =~= body.subrange(0, a) + id + middle + body.subrange(key_at, c) + text
        + body.subrange(d, n));
    assert(reads_as(body, id, middle, text));
    let found = meta_description(line).unwrap();
    assert(found.0 == id && found.1 == text);
    assert(reads_as(line.take(line_end(line)), found.0, middle, found.1));
}

/// The pair of a segment has a key that is not empty and holds neither
/// `=` nor `;`, and a value that holds no `;`, where the segment itself
/// holds no `;`.
pub proof fn lemma_segment_pair_shape(s: Seq<char>, from: int, end: int)
    requires
        0 <= from <= end <= s.len(),
        forall|j: int| from <= j < end ==> s[j] != ';',
    ensures
        segment_pair(s, from, end) matches Some((key, value)) ==> {
            &&& key.len() > 0
            &&& forall|j: int| 0 <= j < key.len() ==> key[j] != '=' && key[j] != ';'
            &&& forall|j: int| 0 <= j < value.len() ==> value[j] != ';'
        },
{
    let cut = s.take(end);
    let eq = index_of(cut, '=', from);
    lemma_index_of(cut, '=', from);
    match segment_pair(s, from, end) {
        Some((key, value)) => {
            assert forall|j: int| 0 <= j < key.len() implies key[j] != '=' && key[j] != ';' by {
                assert(key[j] == s[from + j]);
                assert(cut[from + j] == s[from + j]);
            }
            assert forall|j: int| 0 <= j < value.len() implies value[j] != ';' by {
                assert(value[j] == s[eq + 1 + j]);
            }
        },
        None => {},
    }
}

/// Every pair of an INFO cell has a key that is not empty and holds
/// neither `=` nor `;`, and a value that holds no `;`.
pub proof fn lemma_info_pairs_shape(s: Seq<char>, from: int)
    requires
        0 <= from <= s.len(),
    ensures
        forall|i: int|
            0 <= i < info_pairs(s, from).len() ==> {
                let (key, value) = #[trigger] info_pairs(s, from)[i];
                &&& key.len() > 0
                &&& forall|j: int| 0 <= j < key.len() ==> key[j] != '=' && key[j] != ';'
                &&& forall|j: int| 0 <= j < value.len() ==> value[j] != ';'
            },
    decreases s.len() - from,
{
    let end = index_of(s, ';', from);
    lemma_index_of(s, ';', from);
    lemma_segment_pair_shape(s, from, end);
    let head = match segment_pair(s, from, end) {
        Some(pair) => seq![pair],
        None => Seq::empty(),
    };
    if end < s.len() {
        lemma_info_pairs_shape(s, end + 1);
    }
    assert forall|i: int| 0 <= i < info_pairs(s, from).len() implies {
        let (key, value) = #[trigger] info_pairs(s, from)[i];
        &&& key.len() > 0
        &&& forall|j: int| 0 <= j < key.len() ==> key[j] != '=' && key[j] != ';'
        &&& forall|j: int| 0 <= j < value.len() ==> value[j] != ';'
    } by {
        if i < head.len() {
            assert(info_pairs(s, from)[i] == head[i]);
            assert(head[i] == segment_pair(s, from, end).unwrap());
        } else {
            assert(end < s.len());
            assert(info_pairs(s, from)[i] == info_pairs(s, end + 1)[i - head.len()]);
        }
    }
}

} // verus!
