//! The head of an HTTP response: its status and its header fields.

use crate::error::GarmataError;
use crate::text::{
    find, find_text, lemma_find_first, lemma_find_none, lemma_split_has_a_piece, lowercase,
    lowercase_of, occurs_at, piece, split, split_text,
};
use vstd::prelude::*;

verus! {

/// The head of a response.
#[derive(Debug)]
pub struct HttpResponse {
    /// The status code, as it stands in the status line.
    pub status: String,
    /// The header fields in the order of the response, duplicates kept, each
    /// name in lower case.
    pub headers: Vec<(String, String)>,
}

/// What a response head holds, as plain sequences of characters.
pub struct ResponseView {
    pub status: Seq<char>,
    pub headers: Seq<(Seq<char>, Seq<char>)>,
}

impl View for HttpResponse {
    type V = ResponseView;

    open spec fn view(&self) -> ResponseView {
        ResponseView { status: self.status@, headers: self.headers.deep_view() }
    }
}

/// The header field of a line: the name before the first `": "`, in lower
/// case, and the value after it. A line without `": "` holds no field.
pub open spec fn header_field(line: Seq<char>) -> Option<(Seq<char>, Seq<char>)> {
    match find(line, ": "@) {
        Some(i) => Some((lowercase_of(line.take(i)), line.skip(i + 2))),
        None => None,
    }
}

/// The header fields of a list of lines, in order; lines that hold no field
/// are passed over.
pub open spec fn header_fields(lines: Seq<Seq<char>>) -> Seq<(Seq<char>, Seq<char>)>
    decreases lines.len(),
{
    if lines.len() == 0 {
        Seq::empty()
    } else {
        let before = header_fields(lines.drop_last());
        match header_field(lines.last()) {
            Some(field) => before.push(field),
            None => before,
        }
    }
}

/// The head of the response that a text holds. The head ends before the
/// first empty line; its lines are separated by line breaks; the status is
/// the second of the words of the first line, which single spaces separate;
/// the other lines are header lines. A text without an empty line, or with a
/// first line of one word, holds no response.
pub open spec fn parse_response(text: Seq<char>) -> Option<ResponseView> {
    match find(text, "\r\n\r\n"@) {
        Some(end) => {
            let lines = split(text.take(end), "\r\n"@);
            let words = split(lines[0], " "@);
            if words.len() >= 2 {
                Some(ResponseView { status: words[1], headers: header_fields(lines.skip(1)) })
            } else {
                None
            }
        },
        None => None,
    }
}

/// The header field of a line, if it holds one.
pub fn parse_header(line: &str) -> (r: Option<(String, String)>)
    ensures
        r.deep_view() == header_field(line@),
{
    proof {
        reveal_strlit(": ");
    }
    match find_text(line, ": ") {
        Some(i) => {
            let total = line.unicode_len();
            let name = piece(line, 0, i);
            let value = piece(line, i + 2, total);
            Some((lowercase(name.as_str()), value))
        },
        None => None,
    }
}

impl HttpResponse {
    /// Reads the head of a response from the text received. The error says
    /// `could not parse http response`.
    pub fn parse(text: &str) -> (r: Result<HttpResponse, GarmataError>)
        ensures
            match r {
                Ok(response) => parse_response(text@) == Some(response@),
                Err(e) => parse_response(text@) is None && e.reason@
                    == "could not parse http response"@,
            },
    {
        let end = match find_text(text, "\r\n\r\n") {
            Some(end) => end,
            None => {
                return Err(GarmataError::new("could not parse http response"));
            },
        };
        let head = piece(text, 0, end);
        let lines = split_text(head.as_str(), "\r\n");
        proof {
            lemma_split_has_a_piece(head@, "\r\n"@);
        }
        let words = split_text(lines[0].as_str(), " ");
        if words.len() < 2 {
            return Err(GarmataError::new("could not parse http response"));
        }
        let status = words[1].clone();
        let ghost all = lines.deep_view();
        let mut headers: Vec<(String, String)> = Vec::new();
        let mut i: usize = 1;
        assert(all.skip(1).take(0) =~= Seq::<Seq<char>>::empty());
        assert(headers.deep_view() =~= Seq::<(Seq<char>, Seq<char>)>::empty());
        while i < lines.len()
            invariant
                1 <= i <= lines.len(),
                all == lines.deep_view(),
                headers.deep_view() == header_fields(all.skip(1).take(i - 1)),
            decreases lines.len() - i,
        {
            let ghost before = headers.deep_view();
            proof {
                assert(all.skip(1).take(i as int).drop_last() =~= all.skip(1).take(i - 1));
                assert(all.skip(1).take(i as int).last() == lines@[i as int]@);
            }
            match parse_header(lines[i].as_str()) {
                Some(field) => {
                    let ghost added = field.deep_view();
                    headers.push(field);
                    assert(headers.deep_view() =~= before.push(added));
                },
                None => {},
            }
            i += 1;
        }
        assert(all.skip(1).take(i - 1) =~= all.skip(1));
        Ok(HttpResponse { status, headers })
    }

    /// The value of the first header field with the given name.
    pub fn header(&self, name: &str) -> (r: Option<&String>)
        ensures
            match r {
                Some(value) => first_value(self@.headers, name@) == Some(value@),
                None => first_value(self@.headers, name@) is None,
            },
    {
        let wanted = name.to_owned();
        let ghost all = self@.headers;
        let mut i: usize = 0;
        assert(all.skip(0) =~= all);
        while i < self.headers.len()
            invariant
                i <= self.headers.len(),
                wanted@ == name@,
                all == self@.headers,
                first_value(all, name@) == first_value(all.skip(i as int), name@),
            decreases self.headers.len() - i,
        {
            proof {
                assert(all.skip(i as int)[0] == self.headers@[i as int].deep_view());
                assert(all.skip(i as int).drop_first() =~= all.skip(i + 1));
            }
            if self.headers[i].0 == wanted {
                return Some(&self.headers[i].1);
            }
            i += 1;
        }
        assert(all.skip(i as int).len() == 0);
        None
    }

    /// The values of all the header fields with the given name, in order.
    pub fn header_values(&self, name: &str) -> (r: Vec<String>)
        ensures
            r.deep_view() == values_named(self@.headers, name@),
    {
        let wanted = name.to_owned();
        let mut values: Vec<String> = Vec::new();
        let mut i: usize = 0;
        assert(self@.headers.take(0) =~= Seq::<(Seq<char>, Seq<char>)>::empty());
        assert(values.deep_view() =~= Seq::<Seq<char>>::empty());
        while i < self.headers.len()
            invariant
                i <= self.headers.len(),
                wanted@ == name@,
                values.deep_view() == values_named(self@.headers.take(i as int), name@),
            decreases self.headers.len() - i,
        {
            let ghost before = values.deep_view();
            proof {
                assert(self@.headers.take(i + 1).drop_last() =~= self@.headers.take(i as int));
                assert(self@.headers.take(i + 1).last() == self.headers@[i as int].deep_view());
            }
            if self.headers[i].0 == wanted {
                values.push(self.headers[i].1.clone());
                assert(values.deep_view() =~= before.push(self.headers@[i as int].1@));
            }
            i += 1;
        }
        assert(self@.headers.take(i as int) =~= self@.headers);
        values
    }
}

impl<'a> TryFrom<&'a str> for HttpResponse {
    type Error = GarmataError;

    /// Reads the head of a response from the text received, as `parse`
    /// does.
    fn try_from(value: &'a str) -> (r: Result<HttpResponse, GarmataError>)
        ensures
            match r {
                Ok(response) => parse_response(value@) == Some(response@),
                Err(e) => parse_response(value@) is None && e.reason@
                    == "could not parse http response"@,
            },
    {
        HttpResponse::parse(value)
    }
}

impl<'a> vstd::std_specs::convert::TryFromSpecImpl<&'a str> for HttpResponse {
    open spec fn obeys_try_from_spec() -> bool {
        false
    }

    open spec fn try_from_spec(value: &'a str) -> Result<HttpResponse, GarmataError> {
        arbitrary()
    }
}

/// The value of the first header field with the given name.
pub open spec fn first_value(headers: Seq<(Seq<char>, Seq<char>)>, name: Seq<char>) -> Option<
    Seq<char>,
>
    decreases headers.len(),
{
    if headers.len() == 0 {
        None
    } else if headers[0].0 == name {
        Some(headers[0].1)
    } else {
        first_value(headers.drop_first(), name)
    }
}

/// The values of the header fields with the given name, in order.
pub open spec fn values_named(headers: Seq<(Seq<char>, Seq<char>)>, name: Seq<char>) -> Seq<
    Seq<char>,
>
    decreases headers.len(),
{
    if headers.len() == 0 {
        Seq::empty()
    } else {
        let before = values_named(headers.drop_last(), name);
        if headers.last().0 == name {
            before.push(headers.last().1)
        } else {
            before
        }
    }
}

/// The line holds no line break.
pub open spec fn is_plain(line: Seq<char>) -> bool {
    forall|i: int| 0 <= i < line.len() ==> line[i] != '\r' && line[i] != '\n'
}

/// The name and the value can stand in a header line: neither holds a line
/// break, and the name holds no colon.
pub open spec fn is_field(field: (Seq<char>, Seq<char>)) -> bool {
    &&& is_plain(field.0)
    &&& is_plain(field.1)
    &&& forall|i: int| 0 <= i < field.0.len() ==> field.0[i] != ':'
}

/// The header line of a field: `name: value`.
pub open spec fn header_line(field: (Seq<char>, Seq<char>)) -> Seq<char> {
    field.0 + ": "@ + field.1
}

/// The lines, with a line break between each two.
pub open spec fn join_lines(lines: Seq<Seq<char>>) -> Seq<char>
    decreases lines.len(),
{
    if lines.len() == 0 {
        Seq::empty()
    } else if lines.len() == 1 {
        lines[0]
    } else {
        lines[0] + "\r\n"@ + join_lines(lines.drop_first())
    }
}

/// The lines of a head: the status line, then one line for each field.
pub open spec fn head_lines(status_line: Seq<char>, fields: Seq<(Seq<char>, Seq<char>)>) -> Seq<
    Seq<char>,
> {
    seq![status_line] + fields.map_values(|f: (Seq<char>, Seq<char>)| header_line(f))
}

/// A response as a server writes it: the status line, the header lines, an
/// empty line and the body.
pub open spec fn written(
    status_line: Seq<char>,
    fields: Seq<(Seq<char>, Seq<char>)>,
    body: Seq<char>,
) -> Seq<char> {
    join_lines(head_lines(status_line, fields)) + "\r\n\r\n"@ + body
}

/// The fields as the parser gives them back: each name in lower case.
pub open spec fn read_back(fields: Seq<(Seq<char>, Seq<char>)>) -> Seq<(Seq<char>, Seq<char>)> {
    fields.map_values(|f: (Seq<char>, Seq<char>)| (lowercase_of(f.0), f.1))
}

/// An occurrence of a pattern begins with the first character of the
/// pattern.
proof fn lemma_occurrence_begins(s: Seq<char>, p: Seq<char>, j: int, k: int)
    requires
        occurs_at(s, p, j),
        0 <= k < p.len(),
    ensures
        s[j + k] == p[k],
{
    assert(s.subrange(j, j + p.len())[k] == s[j + k]);
}

/// The separator is found right after a text in which it cannot begin.
proof fn lemma_find_after(a: Seq<char>, sep: Seq<char>, b: Seq<char>)
    requires
        sep.len() > 0,
        forall|j: int| 0 <= j < a.len() ==> !occurs_at(a + sep + b, sep, j),
    ensures
        find(a + sep + b, sep) == Some(a.len() as int),
{
    let text = a + sep + b;
    assert(text.subrange(a.len() as int, (a.len() + sep.len()) as int) =~= sep);
    lemma_find_first(text, sep, a.len() as int);
}

/// Splitting joined lines at the line breaks gives the lines back.
proof fn lemma_split_joined(lines: Seq<Seq<char>>)
    requires
        lines.len() >= 1,
        forall|i: int| 0 <= i < lines.len() ==> is_plain(#[trigger] lines[i]),
    ensures
        split(join_lines(lines), "\r\n"@) == lines,
    decreases lines.len(),
{
    reveal_strlit("\r\n");
    let sep = "\r\n"@;
    if lines.len() == 1 {
        let only = lines[0];
        assert forall|j: int| !occurs_at(only, sep, j) by {
            if occurs_at(only, sep, j) {
                lemma_occurrence_begins(only, sep, j, 0);
            }
        }
        lemma_find_none(only, sep);
        assert(seq![only] =~= lines);
    } else {
        let first = lines[0];
        let rest = lines.drop_first();
        let tail = join_lines(rest);
        let text = first + sep + tail;
        assert(first + sep + tail == join_lines(lines));
        assert forall|j: int| 0 <= j < first.len() implies !occurs_at(text, sep, j) by {
            if occurs_at(text, sep, j) {
                lemma_occurrence_begins(text, sep, j, 0);
            }
        }
        lemma_find_after(first, sep, tail);
        assert(text.take(first.len() as int) =~= first);
        assert(text.skip((first.len() + sep.len()) as int) =~= tail);
        assert forall|i: int| 0 <= i < rest.len() implies is_plain(#[trigger] rest[i]) by {
            assert(rest[i] == lines[i + 1]);
        }
        lemma_split_joined(rest);
        assert(seq![first] + rest =~= lines);
    }
}

/// Joined lines that are not empty hold no empty line: they begin and end
/// with a character of a line, and no line break follows another.
proof fn lemma_joined_has_no_gap(lines: Seq<Seq<char>>)
    requires
        lines.len() >= 1,
        forall|i: int| 0 <= i < lines.len() ==> is_plain(#[trigger] lines[i]) && lines[i].len() > 0,
    ensures
        join_lines(lines).len() > 0,
        join_lines(lines)[0] != '\r',
        join_lines(lines).last() != '\r',
        join_lines(lines).last() != '\n',
        forall|j: int|
            0 <= j && j + 2 < join_lines(lines).len() && join_lines(lines)[j] == '\r'
                && #[trigger] join_lines(lines)[j + 1] == '\n' ==> join_lines(lines)[j + 2]
                != '\r',
    decreases lines.len(),
{
    reveal_strlit("\r\n");
    let sep = "\r\n"@;
    let first = lines[0];
    assert(is_plain(first) && first.len() > 0);
    if lines.len() > 1 {
        let rest = lines.drop_first();
        let tail = join_lines(rest);
        let text = first + sep + tail;
        assert(text == join_lines(lines));
        assert forall|i: int| 0 <= i < rest.len() implies is_plain(#[trigger] rest[i])
            && rest[i].len() > 0 by {
            assert(rest[i] == lines[i + 1]);
        }
        lemma_joined_has_no_gap(rest);
        assert(text[0] == first[0]);
        assert(text.last() == tail.last());
        assert forall|j: int|
            0 <= j && j + 2 < text.len() && text[j] == '\r' && #[trigger] text[j + 1]
                == '\n' implies text[j + 2] != '\r' by {
            if j < first.len() {
                assert(text[j] == first[j]);
            } else if j == first.len() {
                assert(text[j + 2] == tail[0]);
            } else if j == first.len() + 1 {
                assert(text[j] == sep[1]);
            } else {
                let k = j - first.len() - 2;
                assert(text[j] == tail[k]);
                assert(text[j + 1] == tail[k + 1]);
                assert(text[j + 2] == tail[k + 2]);
            }
        }
    }
}

/// The empty line that ends a head is found right after the head.
proof fn lemma_head_ends(lines: Seq<Seq<char>>, body: Seq<char>)
    requires
        lines.len() >= 1,
        forall|i: int| 0 <= i < lines.len() ==> is_plain(#[trigger] lines[i]) && lines[i].len() > 0,
    ensures
        find(join_lines(lines) + "\r\n\r\n"@ + body, "\r\n\r\n"@) == Some(
            join_lines(lines).len() as int,
        ),
{
    reveal_strlit("\r\n\r\n");
    let sep = "\r\n\r\n"@;
    let head = join_lines(lines);
    let text = head + sep + body;
    lemma_joined_has_no_gap(lines);
    assert forall|j: int| 0 <= j < head.len() implies !occurs_at(text, sep, j) by {
        if occurs_at(text, sep, j) {
            lemma_occurrence_begins(text, sep, j, 0);
            lemma_occurrence_begins(text, sep, j, 1);
            lemma_occurrence_begins(text, sep, j, 2);
            assert(text[j] == head[j]);
            if j + 2 < head.len() {
                assert(text[j + 1] == head[j + 1]);
                assert(text[j + 2] == head[j + 2]);
            } else if j + 2 == head.len() {
                assert(text[j + 1] == head[j + 1]);
                assert(head[j + 1] == head.last());
            } else {
                assert(head[j] == head.last());
            }
        }
    }
    lemma_find_after(head, sep, body);
}

/// A header line gives its field back, the name in lower case.
proof fn lemma_field_read_back(field: (Seq<char>, Seq<char>))
    requires
        is_field(field),
    ensures
        header_field(header_line(field)) == Some((lowercase_of(field.0), field.1)),
        is_plain(header_line(field)),
        header_line(field).len() > 0,
{
    reveal_strlit(": ");
    let sep = ": "@;
    let line = field.0 + sep + field.1;
    assert forall|j: int| 0 <= j < field.0.len() implies !occurs_at(line, sep, j) by {
        if occurs_at(line, sep, j) {
            lemma_occurrence_begins(line, sep, j, 0);
            assert(line[j] == field.0[j]);
        }
    }
    lemma_find_after(field.0, sep, field.1);
    assert(line.take(field.0.len() as int) =~= field.0);
    assert(line.skip((field.0.len() + 2) as int) =~= field.1);
    assert forall|i: int| 0 <= i < line.len() implies line[i] != '\r' && line[i] != '\n' by {
        if i < field.0.len() {
            assert(line[i] == field.0[i]);
        } else if i < field.0.len() + 2 {
            assert(line[i] == sep[i - field.0.len()]);
        } else {
            assert(line[i] == field.1[i - field.0.len() - 2]);
        }
    }
}

/// Header lines give their fields back, in order.
proof fn lemma_fields_read_back(fields: Seq<(Seq<char>, Seq<char>)>)
    requires
        forall|i: int| 0 <= i < fields.len() ==> is_field(#[trigger] fields[i]),
    ensures
        header_fields(fields.map_values(|f: (Seq<char>, Seq<char>)| header_line(f))) == read_back(
            fields,
        ),
    decreases fields.len(),
{
    let to_line = |f: (Seq<char>, Seq<char>)| header_line(f);
    let lines = fields.map_values(to_line);
    if fields.len() == 0 {
        assert(read_back(fields) =~= Seq::empty());
    } else {
        let before = fields.drop_last();
        assert forall|i: int| 0 <= i < before.len() implies is_field(#[trigger] before[i]) by {
            assert(before[i] == fields[i]);
        }
        lemma_fields_read_back(before);
        assert(lines.drop_last() =~= before.map_values(to_line));
        assert(lines.last() == header_line(fields.last()));
        lemma_field_read_back(fields.last());
        assert(read_back(before).push((lowercase_of(fields.last().0), fields.last().1))
            =~= read_back(fields));
    }
}

/// The parser reads back what a server writes. For a status line of at
/// least two words and header fields that can stand in a line, followed by
/// an empty line and any body, the status is the second word of the status
/// line and the header fields are those written, in order, each name in
/// lower case.
pub proof fn parsing_reads_what_was_written(
    status_line: Seq<char>,
    fields: Seq<(Seq<char>, Seq<char>)>,
    body: Seq<char>,
)
    requires
        is_plain(status_line),
        split(status_line, " "@).len() >= 2,
        forall|i: int| 0 <= i < fields.len() ==> is_field(#[trigger] fields[i]),
    ensures
        parse_response(written(status_line, fields, body)) == Some(
            ResponseView { status: split(status_line, " "@)[1], headers: read_back(fields) },
        ),
{
    let to_line = |f: (Seq<char>, Seq<char>)| header_line(f);
    let lines = head_lines(status_line, fields);
    let head = join_lines(lines);
    let text = written(status_line, fields, body);
    assert(status_line.len() > 0) by {
        if status_line.len() == 0 {
            assert forall|j: int| !occurs_at(status_line, " "@, j) by {
                reveal_strlit(" ");
            }
            lemma_find_none(status_line, " "@);
        }
    }
    assert forall|i: int| 0 <= i < lines.len() implies is_plain(#[trigger] lines[i])
        && lines[i].len() > 0 by {
        if i > 0 {
            assert(lines[i] == header_line(fields[i - 1]));
            lemma_field_read_back(fields[i - 1]);
        }
    }
    lemma_head_ends(lines, body);
    assert(text.take(head.len() as int) =~= head);
    lemma_split_joined(lines);
    assert(lines[0] == status_line);
    assert(lines.skip(1) =~= fields.map_values(to_line));
    lemma_fields_read_back(fields);
}

} // verus!
