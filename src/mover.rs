use vstd::prelude::*;
use vstd::string::*;
use crate::geometry::Position;
use crate::text::{
    after_dot, after_first_dot, ascii_lowercase, contains, decimal_of, fields_of, ascii_lowered, is_substring,
    isize_text, lines_of, lower_of, lowercase, parse_isize, parsed_isize, split_fields, split_lines, trim, trim_of,
};

verus! {

/// Why a query of the window manager failed.
#[derive(Clone, Copy, Debug, PartialEq, Eq, Structural)]
pub enum MoverError {
    /// A required tool could not be run.
    BackendUnavailable,
    /// No focused window was reported.
    NoFocusedWindow,
    /// The focused window's class is not in the window listing.
    WindowNotFound,
    /// A tool's output is not in the expected layout.
    ProtocolParseError,
}

/// One line of the window listing, split into fields: window id, desktop,
/// left, top, width, height, then `instance.Class`. Gives the geometry and
/// the class lowercased in ASCII, or nothing where the line is not of that shape.
pub open spec fn row_entry(fields: Seq<Seq<char>>) -> Option<(Position, Seq<char>)> {
    if fields.len() >= 7 && parsed_isize(fields[2]) is Some && parsed_isize(fields[3]) is Some
        && parsed_isize(fields[4]) is Some && parsed_isize(fields[5]) is Some && after_first_dot(fields[6]) is Some {
        Some((
            Position {
                left: parsed_isize(fields[2]).unwrap(),
                top: parsed_isize(fields[3]).unwrap(),
                width: parsed_isize(fields[4]).unwrap(),
                height: parsed_isize(fields[5]).unwrap(),
            },
            ascii_lowered(after_first_dot(fields[6]).unwrap()),
        ))
    } else {
        None
    }
}

pub open spec fn all_rows_parse(rows: Seq<Seq<Seq<char>>>) -> bool {
    forall|i: int| 0 <= i < rows.len() ==> (#[trigger] row_entry(rows[i])) is Some
}

pub open spec fn is_first_window(rows: Seq<Seq<Seq<char>>>, w: Seq<char>, i: int) -> bool {
    &&& 0 <= i < rows.len()
    &&& row_entry(rows[i]).unwrap().1 == w
    &&& forall|j: int| 0 <= j < i ==> (#[trigger] row_entry(rows[j])).unwrap().1 != w
}

/// The geometry of the first row whose lowercased class is `w`; a parse
/// error where any row is malformed.
pub open spec fn window_position_in(rows: Seq<Seq<Seq<char>>>, w: Seq<char>) -> Result<Position, MoverError> {
    if !all_rows_parse(rows) {
        Err(MoverError::ProtocolParseError)
    } else if exists|i: int| is_first_window(rows, w, i) {
        Ok(row_entry(rows[choose|i: int| is_first_window(rows, w, i)]).unwrap().0)
    } else {
        Err(MoverError::WindowNotFound)
    }
}

/// The fields of each line of a tool's output.
pub open spec fn rows_of(out: Seq<char>) -> Seq<Seq<Seq<char>>> {
    lines_of(out).map_values(|l: Seq<char>| fields_of(l))
}

pub open spec fn dimensions_key() -> Seq<char> {
    seq!['d', 'i', 'm', 'e', 'n', 's', 'i', 'o', 'n', 's']
}

/// A display-info line that gives the resolution: it holds the keyword and
/// has a second field.
pub open spec fn is_resolution_line(line: Seq<char>) -> bool {
    is_substring(dimensions_key(), line) && fields_of(line).len() >= 2
}

pub open spec fn is_first_resolution_line(lines: Seq<Seq<char>>, i: int) -> bool {
    &&& 0 <= i < lines.len()
    &&& is_resolution_line(lines[i])
    &&& forall|j: int| 0 <= j < i ==> !is_resolution_line(#[trigger] lines[j])
}

/// The second field of the first line that gives the resolution.
pub open spec fn resolution_in(lines: Seq<Seq<char>>) -> Option<Seq<char>> {
    if exists|i: int| is_first_resolution_line(lines, i) {
        Some(fields_of(lines[choose|i: int| is_first_resolution_line(lines, i)])[1])
    } else {
        None
    }
}

/// The text handed to the geometry-set command: `0,left,top,width,height`.
pub open spec fn position_text(p: Position) -> Seq<char> {
    seq!['0', ','] + decimal_of(p.left as int) + seq![','] + decimal_of(p.top as int) + seq![',']
        + decimal_of(p.width as int) + seq![','] + decimal_of(p.height as int)
}

/// Reads one row of the window listing.
pub fn parse_listing_row(fields: &Vec<String>) -> (r: Result<(Position, String), MoverError>)
    ensures
        match r {
            Ok((p, class)) => row_entry(fields@.map_values(|f: String| f@)) == Some((p, class@)),
            Err(e) => row_entry(fields@.map_values(|f: String| f@)) is None && e == MoverError::ProtocolParseError,
        },
{
    let ghost v = fields@.map_values(|f: String| f@);
    if fields.len() < 7 {
        return Err(MoverError::ProtocolParseError);
    }
    let left = parse_isize(fields[2].as_str());
    let top = parse_isize(fields[3].as_str());
    let width = parse_isize(fields[4].as_str());
    let height = parse_isize(fields[5].as_str());
    let class = after_dot(fields[6].as_str());
    match (left, top, width, height, class) {
        (Some(left), Some(top), Some(width), Some(height), Some(class)) => {
            let lowered = ascii_lowercase(class.as_str());
            Ok((Position { left, top, width, height }, lowered))
        },
        _ => Err(MoverError::ProtocolParseError),
    }
}

/// Finds the geometry of the window of class `window_name` in the rows of
/// the window listing. Every row must be well formed.
pub fn find_window_position(rows: &Vec<Vec<String>>, window_name: &str) -> (r: Result<Position, MoverError>)
    ensures
        r == window_position_in(rows@.map_values(|row: Vec<String>| row@.map_values(|f: String| f@)), window_name@),
{
    let ghost v = rows@.map_values(|row: Vec<String>| row@.map_values(|f: String| f@));
    let n = rows.len();
    let mut entries: Vec<(Position, String)> = Vec::new();
    let mut i: usize = 0;
    while i < n
        invariant
            n == rows@.len(),
            v == rows@.map_values(|row: Vec<String>| row@.map_values(|f: String| f@)),
            0 <= i <= n,
            entries@.len() == i,
            forall|j: int| 0 <= j < i ==> (#[trigger] row_entry(v[j])) is Some,
            forall|j: int| 0 <= j < i ==> row_entry(v[j]) == Some(((#[trigger] entries@[j]).0, entries@[j].1@)),
        decreases n - i,
    {
        match parse_listing_row(&rows[i]) {
            Ok(e) => {
                entries.push(e);
            },
            Err(_) => {
                assert(!all_rows_parse(v)) by {
                    assert(row_entry(v[i as int]) is None);
                }
                return Err(MoverError::ProtocolParseError);
            },
        }
        i += 1;
    }
    assert(all_rows_parse(v));
    let name = window_name.to_owned();
    let mut k: usize = 0;
    while k < n
        invariant
            n == rows@.len(),
            entries@.len() == n,
            0 <= k <= n,
            all_rows_parse(v),
            v == rows@.map_values(|row: Vec<String>| row@.map_values(|f: String| f@)),
            forall|j: int| 0 <= j < n ==> row_entry(v[j]) == Some(((#[trigger] entries@[j]).0, entries@[j].1@)),
            name@ == window_name@,
            forall|j: int| 0 <= j < k ==> (#[trigger] entries@[j]).1@ != window_name@,
        decreases n - k,
    {
        if entries[k].1 == name {
            proof {
                assert forall|j: int| 0 <= j < k implies (#[trigger] row_entry(v[j])).unwrap().1 != window_name@ by {
                    assert(entries@[j].1@ != window_name@);
                }
                assert(is_first_window(v, window_name@, k as int));
                let c = choose|c: int| is_first_window(v, window_name@, c);
                if c < k {
                    assert(row_entry(v[c]).unwrap().1 != window_name@);
                } else if k < c {
                    assert(row_entry(v[k as int]).unwrap().1 != window_name@);
                }
                assert(c == k);
                assert(row_entry(v[k as int]) == Some((entries@[k as int].0, entries@[k as int].1@)));
            }
            return Ok(entries[k].0);
        }
        k += 1;
    }
    assert forall|c: int| !is_first_window(v, window_name@, c) by {
        if 0 <= c < n {
            assert(entries@[c].1@ != window_name@);
        }
    }
    Err(MoverError::WindowNotFound)
}

/// The backend for an X11 desktop driven by wmctrl, xdotool and xdpyinfo.
/// It holds no state: its associated functions read and write the tools'
/// text; running the tools is left to the caller.
pub struct LinuxMover {}

pub fn create_mover() -> (r: LinuxMover)
    ensures
        r == (LinuxMover {}),
{
    LinuxMover {}
}

impl LinuxMover {
    /// The argument of the geometry-set command for `position`.
    pub fn position_to_str(position: &Position) -> (r: String)
        ensures
            r@ == position_text(*position),
    {
        proof {
            reveal_strlit("0,");
            reveal_strlit(",");
        }
        let mut r = "0,".to_owned();
        let left = isize_text(position.left);
        r.append(left.as_str());
        r.append(",");
        let top = isize_text(position.top);
        r.append(top.as_str());
        r.append(",");
        let width = isize_text(position.width);
        r.append(width.as_str());
        r.append(",");
        let height = isize_text(position.height);
        r.append(height.as_str());
        assert(r@ =~= position_text(*position));
        r
    }

    /// The focused window's class from the focus query's output: trimmed,
    /// then lowercased.
    pub fn parse_window_name(output: &str) -> (r: Result<String, MoverError>)
        ensures
            match r {
                Ok(name) => trim_of(output@).len() > 0 && name@ == lower_of(trim_of(output@)),
                Err(e) => trim_of(output@).len() == 0 && e == MoverError::NoFocusedWindow,
            },
    {
        let t = trim(output);
        if t.as_str().is_empty() {
            Err(MoverError::NoFocusedWindow)
        } else {
            Ok(lowercase(t.as_str()))
        }
    }

    /// The geometry of the window of class `window_name` in the output of the
    /// window listing.
    pub fn parse_current_position(listing: &str, window_name: &str) -> (r: Result<Position, MoverError>)
        ensures
            r == window_position_in(rows_of(listing@), window_name@),
    {
        let lines = split_lines(listing);
        let ghost lv = lines@.map_values(|l: String| l@);
        let n = lines.len();
        let mut rows: Vec<Vec<String>> = Vec::new();
        let mut i: usize = 0;
        while i < n
            invariant
                n == lines@.len(),
                lv == lines@.map_values(|l: String| l@),
                lv == lines_of(listing@),
                0 <= i <= n,
                rows@.len() == i,
                forall|j: int| 0 <= j < i ==> (#[trigger] rows@[j])@.map_values(|f: String| f@) == fields_of(lv[j]),
            decreases n - i,
        {
            let fields = split_fields(lines[i].as_str());
            rows.push(fields);
            i += 1;
        }
        assert(rows@.map_values(|row: Vec<String>| row@.map_values(|f: String| f@)) =~= rows_of(listing@));
        find_window_position(&rows, window_name)
    }

    /// The resolution token from the display-info output: the second field
    /// of the first line that holds the keyword and has one.
    pub fn parse_screen_resolution(output: &str) -> (r: Result<String, MoverError>)
        ensures
            match r {
                Ok(res) => resolution_in(lines_of(output@)) == Some(res@),
                Err(e) => resolution_in(lines_of(output@)) is None && e == MoverError::ProtocolParseError,
            },
    {
        proof {
            reveal_strlit("dimensions");
        }
        assert("dimensions"@ =~= dimensions_key());
        let lines = split_lines(output);
        let ghost lv = lines@.map_values(|l: String| l@);
        let n = lines.len();
        let mut i: usize = 0;
        while i < n
            invariant
                n == lines@.len(),
                lv == lines@.map_values(|l: String| l@),
                lv == lines_of(output@),
                "dimensions"@ == dimensions_key(),
                0 <= i <= n,
                forall|j: int| 0 <= j < i ==> !is_resolution_line(#[trigger] lv[j]),
            decreases n - i,
        {
            if contains(lines[i].as_str(), "dimensions") {
                let fields = split_fields(lines[i].as_str());
                if fields.len() >= 2 {
                    proof {
                        assert(fields@.map_values(|f: String| f@)[1] == fields@[1]@);
                        assert(is_first_resolution_line(lv, i as int));
                        let c = choose|c: int| is_first_resolution_line(lv, c);
                        if c < i {
                            assert(!is_resolution_line(lv[c]));
                        } else if i < c {
                            assert(!is_resolution_line(lv[i as int]));
                        }
                    }
                    return Ok(fields[1].clone());
                }
            }
            i += 1;
        }
        assert(!exists|c: int| is_first_resolution_line(lv, c));
        Err(MoverError::ProtocolParseError)
    }
}

} // verus!
