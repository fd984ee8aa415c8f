//! The configuration formats: the path catalog (one directory with its walk
//! depth bounds per line, fields separated by `:|:`) and the color theme
//! (one `name=value` pair per line, values being ANSI palette indices).
//! Reading and writing files is the surrounding application's business; the
//! text itself is parsed and produced here.

use vstd::prelude::*;
use vstd::string::StrSliceExecFns;
use vstd::string::StringExecFns;
use crate::Error;
use crate::text::{
    all_digits, dec_str, digits_val, find_char, first_idx, format_usize, lines_of, parse_usize,
    split_by, split_lines, split_seq, str_eq, trim, trim_of,
};

verus! {

/// One configured root: a directory, and the depth bounds the walk honors
/// below it.
#[derive(Debug)]
pub struct Entry {
    pub path: String,
    pub min_depth: usize,
    pub max_depth: usize,
}

/// The configured roots, in file order.
#[derive(Debug)]
pub struct PathList {
    pub entries: Vec<Entry>,
}

/// The mathematical content of one configured root.
pub ghost struct EntryModel {
    pub path: Seq<char>,
    pub min_depth: int,
    pub max_depth: int,
}

/// The model of one root.
pub open spec fn entry_model(e: Entry) -> EntryModel {
    EntryModel { path: e.path@, min_depth: e.min_depth as int, max_depth: e.max_depth as int }
}

/// The models of a sequence of roots.
pub open spec fn entry_models(s: Seq<Entry>) -> Seq<EntryModel> {
    s.map_values(|e: Entry| entry_model(e))
}

/// A depth field is well-formed when it is a plain digit string whose value
/// fits the machine word.
pub open spec fn depth_ok(f: Seq<char>) -> bool {
    f.len() > 0 && all_digits(f) && digits_val(f) <= usize::MAX
}

/// What one configuration line means: three `:|:`-separated fields — the
/// path, the minimum depth, the maximum depth — or the error naming what is
/// wrong with the line.
pub open spec fn parse_line(l: Seq<char>, lineno: int) -> Result<EntryModel, Error> {
    let fields = split_seq(l, ":|:"@);
    if fields.len() != 3 {
        Err(Error::InvalidFieldCount(lineno as usize))
    } else if !depth_ok(fields[1]) {
        Err(Error::InvalidMinDepth(lineno as usize))
    } else if !depth_ok(fields[2]) {
        Err(Error::InvalidMaxDepth(lineno as usize))
    } else {
        Ok(
            EntryModel {
                path: fields[0],
                min_depth: digits_val(fields[1]),
                max_depth: digits_val(fields[2]),
            },
        )
    }
}

/// The lines from `from` on, parsed in order; the first bad line decides.
pub open spec fn parse_lines(ls: Seq<Seq<char>>, from: int) -> Result<Seq<EntryModel>, Error>
    decreases ls.len() - from,
{
    if from < 0 || from >= ls.len() {
        Ok(Seq::empty())
    } else {
        match parse_line(ls[from], from) {
            Err(e) => Err(e),
            Ok(m) => match parse_lines(ls, from + 1) {
                Err(e) => Err(e),
                Ok(rest) => Ok(seq![m] + rest),
            },
        }
    }
}

/// What the whole catalog text means.
pub open spec fn parse_paths_spec(t: Seq<char>) -> Result<Seq<EntryModel>, Error> {
    parse_lines(lines_of(t), 0)
}

/// Parses the catalog text: every line must hold a path and two well-formed
/// depth fields; the first bad line is rejected, by its index.
pub fn parse_path_list(s: &str) -> (r: Result<PathList, Error>)
    ensures
        r is Ok <==> parse_paths_spec(s@) is Ok,
        r matches Ok(pl) ==> parse_paths_spec(s@) == Ok::<_, Error>(entry_models(pl.entries@)),
        r matches Err(e) ==> parse_paths_spec(s@) == Err::<Seq<EntryModel>, _>(e),
{
    let ghost ls = lines_of(s@);
    let lines = split_lines(s);
    let mut entries: Vec<Entry> = Vec::new();
    let mut i: usize = 0;
    proof {
        assert(entry_models(entries@) + Seq::<EntryModel>::empty() =~= entry_models(entries@));
    }
    while i < lines.len()
        invariant
            i <= lines@.len(),
            ls == lines_of(s@),
            lines@.map_values(|l: String| l@) == ls,
            parse_lines(ls, 0) == match parse_lines(ls, i as int) {
                Ok(rest) => Ok::<_, Error>(entry_models(entries@) + rest),
                Err(e) => Err::<Seq<EntryModel>, _>(e),
            },
        decreases lines@.len() - i,
    {
        let ghost line = ls[i as int];
        proof {
            assert(lines@[i as int]@ == line);
            reveal_strlit(":|:");
        }
        let fields = split_by(lines[i].as_str(), ":|:");
        proof {
            assert(fields@.map_values(|p: String| p@) == split_seq(line, ":|:"@));
            assert(fields@.len() == split_seq(line, ":|:"@).len());
        }
        if fields.len() != 3 {
            return Err(Error::InvalidFieldCount(i));
        }
        proof {
            assert(fields@[1]@ == split_seq(line, ":|:"@)[1]);
            assert(fields@[2]@ == split_seq(line, ":|:"@)[2]);
            assert(fields@[0]@ == split_seq(line, ":|:"@)[0]);
        }
        let min_depth = match parse_usize(fields[1].as_str()) {
            Some(v) => v,
            None => {
                return Err(Error::InvalidMinDepth(i));
            },
        };
        let max_depth = match parse_usize(fields[2].as_str()) {
            Some(v) => v,
            None => {
                return Err(Error::InvalidMaxDepth(i));
            },
        };
        let ghost before = entries@;
        let entry = Entry { path: fields[0].clone(), min_depth, max_depth };
        proof {
            assert(parse_line(line, i as int) == Ok::<_, Error>(entry_model(entry)));
        }
        entries.push(entry);
        proof {
            assert(entry_models(entries@) =~= entry_models(before).push(entry_model(entry)));
            match parse_lines(ls, i as int + 1) {
                Ok(rest) => {
                    assert(entry_models(before) + (seq![entry_model(entry)] + rest)
                        =~= entry_models(entries@) + rest);
                },
                Err(e) => {},
            }
        }
        i += 1;
    }
    proof {
        assert(parse_lines(ls, i as int) == Ok::<Seq<EntryModel>, Error>(Seq::empty()));
        assert(entry_models(entries@) + Seq::<EntryModel>::empty() =~= entry_models(entries@));
    }
    Ok(PathList { entries })
}

/// The text of one root: its three fields, `:|:`-separated.
pub open spec fn entry_text(m: EntryModel) -> Seq<char> {
    m.path + ":|:"@ + dec_str(m.min_depth) + ":|:"@ + dec_str(m.max_depth)
}

/// The text of a catalog: one root per line.
pub open spec fn config_text(ms: Seq<EntryModel>) -> Seq<char>
    decreases ms.len(),
{
    if ms.len() == 0 {
        Seq::empty()
    } else if ms.len() == 1 {
        entry_text(ms[0])
    } else {
        config_text(ms.drop_last()) + seq!['\n'] + entry_text(ms.last())
    }
}

impl PathList {
    /// Appends one root to the catalog.
    pub fn insert_row(&mut self, path: String, min_depth: usize, max_depth: usize)
        ensures
            final(self).entries@ == old(self).entries@.push(
                Entry { path, min_depth, max_depth },
            ),
    {
        self.entries.push(Entry { path, min_depth, max_depth });
    }

    /// Drops every root whose path is among the given ones; the rest keep
    /// their order.
    pub fn remove_paths(&mut self, paths: Vec<String>) -> (r: Result<(), Error>)
        ensures
            r is Ok,
            final(self).entries@ == old(self).entries@.filter(
                |e: Entry| !paths@.map_values(|p: String| p@).contains(e.path@),
            ),
    {
        let ghost removed = paths@.map_values(|p: String| p@);
        let ghost pred = |e: Entry| !paths@.map_values(|p: String| p@).contains(e.path@);
        let mut kept: Vec<Entry> = Vec::new();
        let mut i: usize = 0;
        proof {
            reveal(Seq::filter);
            assert(self.entries@.subrange(0, 0) =~= Seq::<Entry>::empty());
            assert(kept@ =~= self.entries@.subrange(0, 0).filter(pred));
        }
        while i < self.entries.len()
            invariant
                i <= self.entries@.len(),
                removed == paths@.map_values(|p: String| p@),
                pred == (|e: Entry| !paths@.map_values(|p: String| p@).contains(e.path@)),
                kept@ == self.entries@.subrange(0, i as int).filter(pred),
            decreases self.entries@.len() - i,
        {
            let ghost prefix = self.entries@.subrange(0, i as int);
            let ghost next_prefix = self.entries@.subrange(0, i as int + 1);
            proof {
                reveal(Seq::filter);
                assert(next_prefix.drop_last() =~= prefix);
                assert(next_prefix.last() == self.entries@[i as int]);
            }
            let e = Entry {
                path: self.entries[i].path.clone(),
                min_depth: self.entries[i].min_depth,
                max_depth: self.entries[i].max_depth,
            };
            proof {
                assert(e == self.entries@[i as int]);
            }
            if !contains_string(&paths, e.path.as_str()) {
                kept.push(e);
            }
            i += 1;
        }
        proof {
            assert(self.entries@.subrange(0, self.entries@.len() as int) =~= self.entries@);
        }
        self.entries = kept;
        Ok(())
    }

    /// The catalog as configuration text, ready to be written back.
    pub fn to_config_string(&self) -> (r: String)
        ensures
            r@ == config_text(entry_models(self.entries@)),
    {
        let ghost ms = entry_models(self.entries@);
        let mut s = String::new();
        let mut i: usize = 0;
        proof {
            assert(s@ =~= config_text(ms.subrange(0, 0)));
        }
        while i < self.entries.len()
            invariant
                i <= self.entries@.len(),
                ms == entry_models(self.entries@),
                s@ == config_text(ms.subrange(0, i as int)),
            decreases self.entries@.len() - i,
        {
            let ghost before = s@;
            proof {
                reveal_strlit("\n");
            }
            if i > 0 {
                s.append("\n");
            }
            s.append(self.entries[i].path.as_str());
            s.append(":|:");
            let min_text = format_usize(self.entries[i].min_depth);
            s.append(min_text.as_str());
            s.append(":|:");
            let max_text = format_usize(self.entries[i].max_depth);
            s.append(max_text.as_str());
            proof {
                assert(ms.subrange(0, i as int + 1).drop_last() =~= ms.subrange(0, i as int));
                assert(ms[i as int] == entry_model(self.entries@[i as int]));
                if i == 0 {
                    assert(s@ =~= entry_text(ms[0]));
                    assert(config_text(ms.subrange(0, 1)) == entry_text(
                        ms.subrange(0, 1)[0],
                    ));
                    assert(ms.subrange(0, 1)[0] == ms[0]);
                } else {
                    assert(s@ =~= before + seq!['\n'] + entry_text(ms[i as int]));
                    assert(ms.subrange(0, i as int + 1).last() == ms[i as int]);
                    assert(ms.subrange(0, i as int + 1).len() >= 2);
                }
            }
            i += 1;
        }
        proof {
            assert(ms.subrange(0, ms.len() as int) =~= ms);
        }
        s
    }
}

/// Whether `s` is among the given strings.
fn contains_string(paths: &Vec<String>, s: &str) -> (r: bool)
    ensures
        r == paths@.map_values(|p: String| p@).contains(s@),
{
    let ghost views = paths@.map_values(|p: String| p@);
    let mut k: usize = 0;
    while k < paths.len()
        invariant
            k <= paths@.len(),
            views == paths@.map_values(|p: String| p@),
            forall|j: int| 0 <= j < k ==> views[j] != s@,
        decreases paths@.len() - k,
    {
        if str_eq(paths[k].as_str(), s) {
            assert(views[k as int] == s@);
            return true;
        }
        k += 1;
    }
    assert(!views.contains(s@));
    false
}

/// The sixteen colors of the ANSI palette.
#[derive(Clone, Copy, Debug, PartialEq, Eq, Structural)]
pub enum AnsiColor {
    Black,
    Red,
    Green,
    Yellow,
    Blue,
    Magenta,
    Cyan,
    Gray,
    DarkGray,
    LightRed,
    LightGreen,
    LightYellow,
    LightBlue,
    LightMagenta,
    LightCyan,
    White,
}

/// The palette color a numeric index denotes, if it is one of the sixteen.
pub open spec fn ansi_of(i: int) -> Option<AnsiColor> {
    if i == 0 {
        Some(AnsiColor::Black)
    } else if i == 1 {
        Some(AnsiColor::Red)
    } else if i == 2 {
        Some(AnsiColor::Green)
    } else if i == 3 {
        Some(AnsiColor::Yellow)
    } else if i == 4 {
        Some(AnsiColor::Blue)
    } else if i == 5 {
        Some(AnsiColor::Magenta)
    } else if i == 6 {
        Some(AnsiColor::Cyan)
    } else if i == 7 {
        Some(AnsiColor::Gray)
    } else if i == 8 {
        Some(AnsiColor::DarkGray)
    } else if i == 9 {
        Some(AnsiColor::LightRed)
    } else if i == 10 {
        Some(AnsiColor::LightGreen)
    } else if i == 11 {
        Some(AnsiColor::LightYellow)
    } else if i == 12 {
        Some(AnsiColor::LightBlue)
    } else if i == 13 {
        Some(AnsiColor::LightMagenta)
    } else if i == 14 {
        Some(AnsiColor::LightCyan)
    } else if i == 15 {
        Some(AnsiColor::White)
    } else {
        None
    }
}

/// Maps a numeric palette index to its color.
pub fn int_to_ansi_colors(i: u8) -> (r: Option<AnsiColor>)
    ensures
        r == ansi_of(i as int),
{
    match i {
        0 => Some(AnsiColor::Black),
        1 => Some(AnsiColor::Red),
        2 => Some(AnsiColor::Green),
        3 => Some(AnsiColor::Yellow),
        4 => Some(AnsiColor::Blue),
        5 => Some(AnsiColor::Magenta),
        6 => Some(AnsiColor::Cyan),
        7 => Some(AnsiColor::Gray),
        8 => Some(AnsiColor::DarkGray),
        9 => Some(AnsiColor::LightRed),
        10 => Some(AnsiColor::LightGreen),
        11 => Some(AnsiColor::LightYellow),
        12 => Some(AnsiColor::LightBlue),
        13 => Some(AnsiColor::LightMagenta),
        14 => Some(AnsiColor::LightCyan),
        15 => Some(AnsiColor::White),
        _ => None,
    }
}

/// The theme: one palette color for each role the interface draws with.
#[derive(Clone, Copy, Debug, PartialEq, Eq, Structural)]
pub struct Colors {
    pub fg: AnsiColor,
    pub border: AnsiColor,
    pub inactive: AnsiColor,
    pub active: AnsiColor,
    pub selection: AnsiColor,
}

/// The theme used when no configuration overrides it.
pub open spec fn default_colors() -> Colors {
    Colors {
        fg: AnsiColor::White,
        border: AnsiColor::White,
        inactive: AnsiColor::DarkGray,
        active: AnsiColor::LightGreen,
        selection: AnsiColor::LightYellow,
    }
}

impl Default for Colors {
    /// The built-in theme.
    fn default() -> (r: Colors)
        ensures
            r == default_colors(),
    {
        Colors {
            fg: AnsiColor::White,
            border: AnsiColor::White,
            inactive: AnsiColor::DarkGray,
            active: AnsiColor::LightGreen,
            selection: AnsiColor::LightYellow,
        }
    }
}

/// A value field is applicable when it is a digit string denoting one of the
/// sixteen palette indices.
pub open spec fn color_value(v: Seq<char>) -> Option<AnsiColor> {
    if v.len() > 0 && all_digits(v) && digits_val(v) <= 255 {
        ansi_of(digits_val(v))
    } else {
        None
    }
}

/// What one theme line does to the theme: a `name=value` pair with a known
/// role name and an applicable value sets that role; every other line
/// changes nothing.
pub open spec fn color_update(c: Colors, line: Seq<char>) -> Colors {
    match first_idx(line, '=') {
        None => c,
        Some(k) => {
            let name = trim_of(line.subrange(0, k));
            let value = trim_of(line.subrange(k + 1, line.len() as int));
            match color_value(value) {
                None => c,
                Some(col) => {
                    if name == "fg"@ {
                        Colors { fg: col, ..c }
                    } else if name == "border"@ {
                        Colors { border: col, ..c }
                    } else if name == "inactive"@ {
                        Colors { inactive: col, ..c }
                    } else if name == "active"@ {
                        Colors { active: col, ..c }
                    } else if name == "selection"@ {
                        Colors { selection: col, ..c }
                    } else {
                        c
                    }
                },
            }
        },
    }
}

/// The theme after the lines from `from` on are applied to `c`, in order.
pub open spec fn colors_after(c: Colors, ls: Seq<Seq<char>>, from: int) -> Colors
    decreases ls.len() - from,
{
    if from < 0 || from >= ls.len() {
        c
    } else {
        colors_after(color_update(c, ls[from]), ls, from + 1)
    }
}

/// What a whole theme text means, starting from the built-in theme.
pub open spec fn colors_of(t: Seq<char>) -> Colors {
    colors_after(default_colors(), lines_of(t), 0)
}

/// Parses the theme text: later lines override earlier ones, and anything
/// not a well-formed `name=value` pair with a known role and a palette index
/// is passed over.
pub fn parse_colors(contents: &str) -> (r: Colors)
    ensures
        r == colors_of(contents@),
{
    let ghost ls = lines_of(contents@);
    let lines = split_lines(contents);
    let mut colors = Colors::default();
    let mut i: usize = 0;
    while i < lines.len()
        invariant
            i <= lines@.len(),
            ls == lines_of(contents@),
            lines@.map_values(|l: String| l@) == ls,
            colors_after(colors, ls, i as int) == colors_of(contents@),
        decreases lines@.len() - i,
    {
        let ghost line = ls[i as int];
        proof {
            assert(lines@[i as int]@ == line);
        }
        let text = lines[i].as_str();
        match find_char(text, '=') {
            Some(k) => {
                let tlen = text.unicode_len();
                assert(k < tlen);
                let name = trim(text.substring_char(0, k));
                let value = trim(text.substring_char(k + 1, tlen));
                proof {
                    assert(name@ == trim_of(line.subrange(0, k as int)));
                    assert(value@ == trim_of(line.subrange(k as int + 1, line.len() as int)));
                }
                match parse_usize(value) {
                    Some(v) => {
                        if v <= 255 {
                            match int_to_ansi_colors(v as u8) {
                                Some(col) => {
                                    if str_eq(name, "fg") {
                                        colors = Colors { fg: col, ..colors };
                                    } else if str_eq(name, "border") {
                                        colors = Colors { border: col, ..colors };
                                    } else if str_eq(name, "inactive") {
                                        colors = Colors { inactive: col, ..colors };
                                    } else if str_eq(name, "active") {
                                        colors = Colors { active: col, ..colors };
                                    } else if str_eq(name, "selection") {
                                        colors = Colors { selection: col, ..colors };
                                    }
                                },
                                None => {},
                            }
                        }
                    },
                    None => {},
                }
            },
            None => {},
        }
        i += 1;
    }
    colors
}

} // verus!
