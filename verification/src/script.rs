//! The rename script: a leading block of `//` comment lines, preserved
//! verbatim, followed by instruction lines of the form
//! `from: <name> to: <name>`. Parsing is strict: a non-comment line that
//! does not carry the separator, or whose part before the separator is
//! shorter than the `from:` prefix, fails the whole load.
//!
//! Applying the script is modelled as a pure transformation of the set of
//! existing file names, so that the caller's filesystem renames are
//! planned and checked before any of them runs.

use vstd::prelude::*;
use crate::text::contains_str;
use crate::text::joined;
use crate::text::line_words;
use crate::text::matches_words;
use crate::text::path_join;
use crate::text::split_clean;
use crate::text::str_eq;
use crate::text::trim_in;
use crate::text::trimmed;
use crate::text::views_of;
use crate::records::ReadParseFile;
use vstd::string::StrSliceExecFns;
use vstd::string::StringExecFns;

verus! {

/// Parsing failure: a rename-script body line is neither a comment nor a
/// well-formed instruction.
#[derive(Debug, PartialEq, Eq)]
pub enum ParseError {
    MalformedRenameLine,
}

/// Failure while planning the application of a rename batch.
#[derive(Debug, PartialEq, Eq)]
pub enum RenameError {
    /// The source file of an instruction does not exist.
    TargetMissing,
    /// The destination file of an instruction already exists; the batch
    /// never overwrites.
    Conflict,
}

/// One rename instruction: `from` is the source base name, `to` the
/// destination base name.
#[derive(Debug)]
pub struct Change {
    pub from: String,
    pub to: String,
}

/// The mathematical value of a rename instruction.
#[verifier::ext_equal]
pub ghost struct ChangeV {
    pub from: Seq<char>,
    pub to: Seq<char>,
}

impl View for Change {
    type V = ChangeV;

    open spec fn view(&self) -> ChangeV {
        ChangeV { from: self.from@, to: self.to@ }
    }
}

impl Clone for Change {
    fn clone(&self) -> (r: Self)
        ensures
            r == *self,
    {
        Change { from: self.from.clone(), to: self.to.clone() }
    }
}

/// Whether the literal separator `to:` occurs in `l` at position `k`.
pub open spec fn is_to_at(l: Seq<char>, k: int) -> bool {
    &&& k + 3 <= l.len()
    &&& l[k] == 't'
    &&& l[k + 1] == 'o'
    &&& l[k + 2] == ':'
}

/// The first position of the separator `to:` in `l`, or -1 if absent.
pub open spec fn find_to(l: Seq<char>) -> int
    decreases l.len(),
{
    if l.len() < 3 {
        -1
    } else if l[0] == 't' && l[1] == 'o' && l[2] == ':' {
        0
    } else if find_to(l.drop_first()) == -1 {
        -1
    } else {
        1 + find_to(l.drop_first())
    }
}

proof fn lemma_find_to_found(l: Seq<char>, i: int)
    requires
        0 <= i,
        forall|k: int| 0 <= k < i ==> !is_to_at(l, k),
        is_to_at(l, i),
    ensures
        find_to(l) == i,
    decreases i,
{
    if i == 0 {
    } else {
        assert(!is_to_at(l, 0));
        assert forall|k: int| 0 <= k < i - 1 implies !is_to_at(l.drop_first(), k) by {
            assert(!is_to_at(l, k + 1));
            if k + 3 <= l.drop_first().len() {
                assert(l.drop_first()[k] == l[k + 1]);
                assert(l.drop_first()[k + 1] == l[k + 2]);
                assert(l.drop_first()[k + 2] == l[k + 3]);
            }
        }
        assert(is_to_at(l.drop_first(), i - 1)) by {
            assert(l.drop_first()[i - 1] == l[i]);
            assert(l.drop_first()[i] == l[i + 1]);
            assert(l.drop_first()[i + 1] == l[i + 2]);
        }
        lemma_find_to_found(l.drop_first(), i - 1);
    }
}

proof fn lemma_find_to_none(l: Seq<char>, i: int)
    requires
        0 <= i,
        forall|k: int| 0 <= k < i ==> !is_to_at(l, k),
        i + 3 > l.len(),
    ensures
        find_to(l) == -1,
    decreases l.len(),
{
    if l.len() < 3 {
    } else {
        assert(!is_to_at(l, 0));
        assert forall|k: int| 0 <= k < i - 1 implies !is_to_at(l.drop_first(), k) by {
            assert(!is_to_at(l, k + 1));
            if k + 3 <= l.drop_first().len() {
                assert(l.drop_first()[k] == l[k + 1]);
                assert(l.drop_first()[k + 1] == l[k + 2]);
                assert(l.drop_first()[k + 2] == l[k + 3]);
            }
        }
        lemma_find_to_none(l.drop_first(), i - 1);
    }
}

/// Scans for the separator `to:` at or after position `from`. Returns its
/// first position, or the length of `l` if it does not occur.
fn find_sep_from(l: &str, from: usize) -> (r: usize)
    requires
        from <= l@.len(),
    ensures
        from <= r <= l@.len(),
        find_to(l@.skip(from as int)) == if r == l@.len() {
            -1int
        } else {
            r - from
        },
        r < l@.len() ==> is_to_at(l@, r as int),
{
    let n = l.unicode_len();
    let mut i = from;
    while n - i >= 3
        invariant
            from <= i <= n == l@.len(),
            forall|k: int| from <= k < i ==> !is_to_at(l@, k),
        decreases n - i,
    {
        if l.get_char(i) == 't' && l.get_char(i + 1) == 'o' && l.get_char(i + 2) == ':' {
            proof {
                let sub = l@.skip(from as int);
                assert forall|k: int| 0 <= k < i - from implies !is_to_at(sub, k) by {
                    assert(!is_to_at(l@, from + k));
                    assert(sub.len() == l@.len() - from);
                    if k + 3 <= sub.len() {
                        assert(sub[k] == l@[from + k]);
                        assert(sub[k + 1] == l@[from + k + 1]);
                        assert(sub[k + 2] == l@[from + k + 2]);
                    }
                }
                assert(is_to_at(sub, i - from)) by {
                    assert(sub[i - from] == l@[i as int]);
                    assert(sub[i - from + 1] == l@[i as int + 1]);
                    assert(sub[i - from + 2] == l@[i as int + 2]);
                }
                lemma_find_to_found(sub, i - from);
            }
            return i;
        }
        proof {
            assert(!is_to_at(l@, i as int));
        }
        i = i + 1;
    }
    proof {
        let sub = l@.skip(from as int);
        assert forall|k: int| 0 <= k < i - from implies !is_to_at(sub, k) by {
            assert(!is_to_at(l@, from + k));
            assert(sub.len() == l@.len() - from);
            if k + 3 <= sub.len() {
                assert(sub[k] == l@[from + k]);
                assert(sub[k + 1] == l@[from + k + 1]);
                assert(sub[k + 2] == l@[from + k + 2]);
            }
        }
        lemma_find_to_none(sub, i - from);
    }
    n
}

/// The instruction parsed from one script line, if the line is
/// well-formed: the separator `to:` must occur, and the part before its
/// first occurrence must be at least as long as the `from:` prefix, which
/// is consumed. The `to` part runs up to the next separator occurrence,
/// if any. Both parts are trimmed.
pub open spec fn parse_change(l: Seq<char>) -> Option<ChangeV> {
    let i = find_to(l);
    if i < 0 {
        Option::None
    } else if i < 5 {
        Option::None
    } else {
        let after = l.skip(i + 3);
        let j = find_to(after);
        let raw_to = if j < 0 {
            after
        } else {
            after.take(j)
        };
        Option::Some(ChangeV { from: trimmed(l.subrange(5, i)), to: trimmed(raw_to) })
    }
}

/// Parses one script line into an instruction, or reports it malformed.
fn parse_change_line(l: &str) -> (r: Option<Change>)
    ensures
        match r {
            Option::Some(c) => parse_change(l@) == Option::Some(c@),
            Option::None => parse_change(l@) is None,
        },
{
    let n = l.unicode_len();
    let sep = find_sep_from(l, 0);
    proof {
        assert(l@.skip(0) =~= l@);
    }
    if sep == n {
        return Option::None;
    }
    if sep < 5 {
        return Option::None;
    }
    let (fa, fb) = trim_in(l, 5, sep);
    let from = l.substring_char(fa, fb).to_owned();
    let sep2 = find_sep_from(l, sep + 3);
    let (ta, tb) = trim_in(l, sep + 3, sep2);
    let to = l.substring_char(ta, tb).to_owned();
    proof {
        let i = find_to(l@);
        let after = l@.skip(i + 3);
        if sep2 == n {
            assert(after =~= l@.subrange(sep + 3, n as int));
        } else {
            assert(after.take(sep2 - (sep + 3)) =~= l@.subrange(sep + 3, sep2 as int));
        }
    }
    Option::Some(Change { from, to })
}

/// Whether a line opens with the two-character comment marker.
pub open spec fn is_comment(l: Seq<char>) -> bool {
    l.len() >= 2 && l[0] == '/' && l[1] == '/'
}

/// Executable test for `is_comment`.
fn comment_line(l: &str) -> (r: bool)
    ensures
        r == is_comment(l@),
{
    l.unicode_len() >= 2 && l.get_char(0) == '/' && l.get_char(1) == '/'
}

/// The length of the maximal leading block of comment lines.
pub open spec fn comment_prefix(lines: Seq<Seq<char>>) -> int
    decreases lines.len(),
{
    if lines.len() > 0 && is_comment(lines[0]) {
        1 + comment_prefix(lines.drop_first())
    } else {
        0
    }
}

proof fn lemma_comment_prefix_scan(lines: Seq<Seq<char>>, i: int)
    requires
        0 <= i <= lines.len(),
        forall|k: int| 0 <= k < i ==> is_comment(lines[k]),
        i == lines.len() || !is_comment(lines[i]),
    ensures
        comment_prefix(lines) == i,
    decreases i,
{
    if i == 0 {
    } else {
        assert(forall|k: int| 0 <= k < i - 1 ==> lines.drop_first()[k] == lines[k + 1]);
        lemma_comment_prefix_scan(lines.drop_first(), i - 1);
    }
}

/// The instructions of the non-comment lines, or nothing if any line is
/// malformed.
pub open spec fn parse_changes(lines: Seq<Seq<char>>) -> Option<Seq<ChangeV>>
    decreases lines.len(),
{
    if lines.len() == 0 {
        Option::Some(Seq::empty())
    } else {
        match parse_change(lines[0]) {
            Option::None => Option::None,
            Option::Some(c) => match parse_changes(lines.drop_first()) {
                Option::None => Option::None,
                Option::Some(rest) => Option::Some(seq![c] + rest),
            },
        }
    }
}

proof fn lemma_parse_changes_ok(lines: Seq<Seq<char>>, cs: Seq<ChangeV>)
    requires
        lines.len() == cs.len(),
        forall|k: int| 0 <= k < lines.len() ==> parse_change(lines[k]) == Option::Some(cs[k]),
    ensures
        parse_changes(lines) == Option::Some(cs),
    decreases lines.len(),
{
    if lines.len() == 0 {
        assert(cs =~= Seq::<ChangeV>::empty());
    } else {
        assert(forall|k: int| 0 <= k < lines.len() - 1 ==> lines.drop_first()[k] == lines[k + 1]
            && cs.drop_first()[k] == cs[k + 1]);
        lemma_parse_changes_ok(lines.drop_first(), cs.drop_first());
        assert(seq![cs[0]] + cs.drop_first() =~= cs);
    }
}

proof fn lemma_parse_changes_fail(lines: Seq<Seq<char>>, i: int)
    requires
        0 <= i < lines.len(),
        parse_change(lines[i]) is None,
    ensures
        parse_changes(lines) is None,
    decreases i,
{
    if i == 0 {
    } else {
        assert(lines.drop_first()[i - 1] == lines[i]);
        lemma_parse_changes_fail(lines.drop_first(), i - 1);
    }
}

/// The trimmed, non-empty lines of the script text, in file order.
pub open spec fn clean_lines(content: Seq<char>) -> Seq<Seq<char>> {
    line_words(content).map_values(|p: (int, Seq<char>)| p.1)
}

/// `r` holds exactly the instructions `m`, as runtime values.
pub open spec fn matches_changes(r: Seq<Change>, m: Seq<ChangeV>) -> bool {
    &&& r.len() == m.len()
    &&& forall|k: int| 0 <= k < m.len() ==> r[k]@ == m[k]
}

/// The rename script: its derived file location, its preserved leading
/// comment block, and its parsed instructions.
pub struct Rename {
    pub name: String,
    pub file_name: String,
    pub file_path: String,
    pub comments: Vec<String>,
    pub changes: Vec<Change>,
}

impl Rename {
    /// An empty script, to be filled by `setup`.
    pub fn new() -> (r: Self)
        ensures
            r.name@ == Seq::<char>::empty(),
            r.file_name@ == Seq::<char>::empty(),
            r.file_path@ == Seq::<char>::empty(),
            r.comments@.len() == 0,
            r.changes@.len() == 0,
    {
        Rename {
            name: String::new(),
            file_name: String::new(),
            file_path: String::new(),
            comments: Vec::new(),
            changes: Vec::new(),
        }
    }

    /// Derives the script's file location under the configuration
    /// directory and parses the given script text.
    pub fn setup(self, dir: &String, content: &str) -> (r: Result<Self, ParseError>)
        requires
            content@.len() < usize::MAX,
        ensures
            ({
                let lines = clean_lines(content@);
                let k = comment_prefix(lines);
                match r {
                    Result::Ok(ren) => {
                        &&& parse_changes(lines.skip(k)) is Some
                        &&& ren.name@ == "rename"@
                        &&& ren.file_name@ == "rename.on"@
                        &&& ren.file_path@ == joined(dir@, "rename.on"@)
                        &&& matches_words(ren.comments@, lines.take(k))
                        &&& matches_changes(ren.changes@, parse_changes(lines.skip(k)).unwrap())
                    },
                    Result::Err(e) => {
                        &&& e == ParseError::MalformedRenameLine
                        &&& parse_changes(lines.skip(k)) is None
                    },
                }
            }),
    {
        let name = String::from_str("rename");
        let file_name = String::from_str("rename.on");
        let file_path = path_join(dir.as_str(), "rename.on");
        let parser = ReadParseFile { content: String::from_str(content) };
        match parser.split_rename(Rename {
            name,
            file_name,
            file_path,
            comments: Vec::new(),
            changes: Vec::new(),
        }) {
            Result::Ok(ren) => Result::Ok(ren),
            Result::Err(e) => Result::Err(e),
        }
    }
}

impl ReadParseFile {
    /// Parses the text as a rename script: the maximal leading block of
    /// trimmed, non-empty comment lines is captured in order; every line
    /// after that block must be a well-formed instruction, or the whole
    /// parse fails. The location fields of `rename` are kept.
    pub fn split_rename(self, rename: Rename) -> (r: Result<Rename, ParseError>)
        requires
            self.content@.len() < usize::MAX,
        ensures
            ({
                let lines = clean_lines(self.content@);
                let k = comment_prefix(lines);
                match r {
                    Result::Ok(ren) => {
                        &&& parse_changes(lines.skip(k)) is Some
                        &&& ren.name == rename.name
                        &&& ren.file_name == rename.file_name
                        &&& ren.file_path == rename.file_path
                        &&& matches_words(ren.comments@, lines.take(k))
                        &&& matches_changes(ren.changes@, parse_changes(lines.skip(k)).unwrap())
                    },
                    Result::Err(e) => {
                        &&& e == ParseError::MalformedRenameLine
                        &&& parse_changes(lines.skip(k)) is None
                    },
                }
            }),
    {
        let ghost lines = clean_lines(self.content@);
        let pairs = split_clean(self.content.as_str());
        proof {
            assert(lines.len() == pairs@.len());
            assert(forall|k: int| 0 <= k < pairs@.len() ==> pairs@[k].1@ == lines[k]);
        }
        let mut comments: Vec<String> = Vec::new();
        let mut i: usize = 0;
        while i < pairs.len() && comment_line(pairs[i].1.as_str())
            invariant
                i <= pairs@.len() == lines.len(),
                forall|k: int| 0 <= k < pairs@.len() ==> pairs@[k].1@ == lines[k],
                forall|k: int| 0 <= k < i ==> is_comment(lines[k]),
                comments@.len() == i,
                forall|k: int| 0 <= k < i ==> comments@[k]@ == lines[k],
            decreases pairs@.len() - i,
        {
            comments.push(pairs[i].1.clone());
            i = i + 1;
        }
        proof {
            lemma_comment_prefix_scan(lines, i as int);
            assert(matches_words(comments@, lines.take(i as int))) by {
                assert(forall|k: int| 0 <= k < i ==> views_of(comments@)[k] == comments@[k]@);
            }
        }
        let ghost kk = i as int;
        let mut changes: Vec<Change> = Vec::new();
        let mut j: usize = i;
        while j < pairs.len()
            invariant
                lines == clean_lines(self.content@),
                0 <= kk <= j <= pairs@.len() == lines.len(),
                kk == comment_prefix(lines),
                forall|k: int| 0 <= k < pairs@.len() ==> pairs@[k].1@ == lines[k],
                changes@.len() == j - kk,
                forall|k: int| kk <= k < j ==> parse_change(lines[k]) == Option::Some(
                    changes@[k - kk]@,
                ),
            decreases pairs@.len() - j,
        {
            proof {
                assert(pairs@[j as int].1@ == lines[j as int]);
            }
            match parse_change_line(pairs[j].1.as_str()) {
                Option::Some(c) => {
                    changes.push(c);
                },
                Option::None => {
                    proof {
                        assert(lines.skip(kk).len() == lines.len() - kk);
                        assert(lines.skip(kk)[j - kk] =~= lines[j as int]);
                        lemma_parse_changes_fail(lines.skip(kk), j - kk);
                    }
                    return Result::Err(ParseError::MalformedRenameLine);
                },
            }
            j = j + 1;
        }
        proof {
            let rest = lines.skip(kk);
            let cs = changes@.map_values(|c: Change| c@);
            assert(rest.len() == cs.len());
            assert(forall|k: int| 0 <= k < rest.len() ==> rest[k] == lines[k + kk]);
            assert(forall|k: int| 0 <= k < cs.len() ==> cs[k] == changes@[k]@);
            lemma_parse_changes_ok(rest, cs);
            assert(matches_changes(changes@, cs));
        }
        Result::Ok(Rename {
            name: rename.name,
            file_name: rename.file_name,
            file_path: rename.file_path,
            comments,
            changes,
        })
    }
}

/// The views of a list of (source, destination) path pairs.
pub open spec fn pair_views(pairs: Seq<(String, String)>) -> Seq<(Seq<char>, Seq<char>)> {
    pairs.map_values(|p: (String, String)| (p.0@, p.1@))
}

/// `s` with the first occurrence of `x` removed, if any.
pub open spec fn remove_first(s: Seq<Seq<char>>, x: Seq<char>) -> Seq<Seq<char>>
    decreases s.len(),
{
    if s.len() == 0 {
        Seq::empty()
    } else if s[0] == x {
        s.drop_first()
    } else {
        seq![s[0]] + remove_first(s.drop_first(), x)
    }
}

proof fn lemma_remove_first_at(s: Seq<Seq<char>>, x: Seq<char>, idx: int)
    requires
        0 <= idx < s.len(),
        s[idx] == x,
        forall|k: int| 0 <= k < idx ==> s[k] != x,
    ensures
        remove_first(s, x) == s.remove(idx),
    decreases idx,
{
    if idx == 0 {
        assert(s.drop_first() =~= s.remove(0));
    } else {
        assert(forall|k: int| 0 <= k < idx - 1 ==> s.drop_first()[k] == s[k + 1]);
        lemma_remove_first_at(s.drop_first(), x, idx - 1);
        assert(seq![s[0]] + s.drop_first().remove(idx - 1) =~= s.remove(idx));
    }
}

proof fn lemma_remove_first_len(s: Seq<Seq<char>>, x: Seq<char>)
    requires
        s.contains(x),
    ensures
        remove_first(s, x).len() == s.len() - 1,
    decreases s.len(),
{
    if s[0] == x {
    } else {
        assert(s.drop_first().contains(x)) by {
            let j = choose|j: int| 0 <= j < s.len() && s[j] == x;
            assert(s.drop_first()[j - 1] == x);
        }
        lemma_remove_first_len(s.drop_first(), x);
    }
}

proof fn lemma_remove_first_gone(s: Seq<Seq<char>>, x: Seq<char>)
    requires
        s.no_duplicates(),
    ensures
        !remove_first(s, x).contains(x),
    decreases s.len(),
{
    if s.len() == 0 {
    } else if s[0] == x {
        assert(!s.drop_first().contains(x)) by {
            if s.drop_first().contains(x) {
                let j = choose|j: int| 0 <= j < s.drop_first().len() && s.drop_first()[j] == x;
                assert(s[j + 1] == s[0]);
            }
        }
    } else {
        assert(s.drop_first().no_duplicates()) by {
            assert(forall|i: int, j: int|
                0 <= i < s.drop_first().len() && 0 <= j < s.drop_first().len() && i != j
                    ==> s.drop_first()[i] == s[i + 1] && s.drop_first()[j] == s[j + 1]);
        }
        lemma_remove_first_gone(s.drop_first(), x);
        let t = seq![s[0]] + remove_first(s.drop_first(), x);
        assert(!t.contains(x)) by {
            if t.contains(x) {
                let j = choose|j: int| 0 <= j < t.len() && t[j] == x;
                if j == 0 {
                    assert(t[0] == s[0]);
                } else {
                    assert(t[j] == remove_first(s.drop_first(), x)[j - 1]);
                }
            }
        }
    }
}

/// The effect of a rename batch on the names of the existing files,
/// applied in order: each instruction needs its source present and its
/// destination absent (the batch never overwrites), and replaces the
/// source name by the destination name. The first failing instruction
/// fails the whole batch.
pub open spec fn apply_renames_plan(
    existing: Seq<Seq<char>>,
    pairs: Seq<(Seq<char>, Seq<char>)>,
) -> Result<Seq<Seq<char>>, RenameError>
    decreases pairs.len(),
{
    if pairs.len() == 0 {
        Result::Ok(existing)
    } else if !existing.contains(pairs[0].0) {
        Result::Err(RenameError::TargetMissing)
    } else if existing.contains(pairs[0].1) {
        Result::Err(RenameError::Conflict)
    } else {
        apply_renames_plan(
            remove_first(existing, pairs[0].0).push(pairs[0].1),
            pairs.drop_first(),
        )
    }
}

/// The index of the first string in `v` whose view is `s@`, if any.
fn find_name(v: &Vec<String>, s: &str) -> (r: Option<usize>)
    ensures
        match r {
            Option::Some(idx) => idx < v@.len() && v@[idx as int]@ == s@ && forall|k: int|
                0 <= k < idx ==> v@[k]@ != s@,
            Option::None => forall|k: int| 0 <= k < v@.len() ==> v@[k]@ != s@,
        },
{
    let mut i: usize = 0;
    while i < v.len()
        invariant
            i <= v@.len(),
            forall|k: int| 0 <= k < i ==> v@[k]@ != s@,
        decreases v@.len() - i,
    {
        if str_eq(v[i].as_str(), s) {
            return Option::Some(i);
        }
        i = i + 1;
    }
    Option::None
}

/// Checks and simulates a rename batch over the names of the existing
/// files, in instruction order: on success, the returned list holds the
/// names after every rename; on failure, nothing should be renamed at
/// all, and the error names the first failing instruction's fault.
pub fn apply_renames(existing: &Vec<String>, pairs: &Vec<(String, String)>) -> (r: Result<
    Vec<String>,
    RenameError,
>)
    ensures
        match r {
            Result::Ok(v) => apply_renames_plan(views_of(existing@), pair_views(pairs@))
                == Result::<Seq<Seq<char>>, RenameError>::Ok(views_of(v@)),
            Result::Err(e) => apply_renames_plan(views_of(existing@), pair_views(pairs@))
                == Result::<Seq<Seq<char>>, RenameError>::Err(e),
        },
{
    let ghost p0 = pair_views(pairs@);
    let mut cur: Vec<String> = Vec::new();
    let mut i: usize = 0;
    while i < existing.len()
        invariant
            i <= existing@.len(),
            cur@.len() == i,
            forall|k: int| 0 <= k < i ==> cur@[k]@ == existing@[k]@,
        decreases existing@.len() - i,
    {
        cur.push(existing[i].clone());
        i = i + 1;
    }
    proof {
        assert(views_of(cur@) =~= views_of(existing@));
        assert(p0.skip(0) =~= p0);
    }
    let mut k: usize = 0;
    while k < pairs.len()
        invariant
            k <= pairs@.len(),
            p0 == pair_views(pairs@),
            apply_renames_plan(views_of(existing@), p0) == apply_renames_plan(
                views_of(cur@),
                p0.skip(k as int),
            ),
        decreases pairs@.len() - k,
    {
        let ghost vs = views_of(cur@);
        let ghost rest = p0.skip(k as int);
        proof {
            assert(rest[0] == p0[k as int]);
            assert(p0[k as int] == (pairs@[k as int].0@, pairs@[k as int].1@));
            assert(rest.drop_first() =~= p0.skip(k as int + 1));
        }
        let from_name = pairs[k].0.as_str();
        let to_name = pairs[k].1.as_str();
        match find_name(&cur, from_name) {
            Option::None => {
                proof {
                    assert(!vs.contains(from_name@)) by {
                        assert(forall|j: int| 0 <= j < vs.len() ==> vs[j] == cur@[j]@);
                    }
                }
                return Result::Err(RenameError::TargetMissing);
            },
            Option::Some(idx) => {
                proof {
                    assert(vs.contains(from_name@)) by {
                        assert(vs[idx as int] == cur@[idx as int]@);
                    }
                }
                if contains_str(&cur, to_name) {
                    return Result::Err(RenameError::Conflict);
                }
                proof {
                    assert(forall|j: int| 0 <= j < idx ==> vs[j] == cur@[j]@ && vs[j]
                        != from_name@);
                    lemma_remove_first_at(vs, from_name@, idx as int);
                }
                let moved = pairs[k].1.clone();
                cur.remove(idx);
                proof {
                    assert(views_of(cur@) =~= vs.remove(idx as int));
                }
                cur.push(moved);
                proof {
                    assert(views_of(cur@) =~= vs.remove(idx as int).push(to_name@));
                    assert(views_of(cur@) == remove_first(vs, from_name@).push(to_name@));
                }
            },
        }
        k = k + 1;
    }
    proof {
        assert(p0.skip(pairs@.len() as int) =~= Seq::<(Seq<char>, Seq<char>)>::empty());
    }
    Result::Ok(cur)
}

/// An applied rename takes effect. For a duplicate-free list of existing
/// names that holds the source name and not the destination name, the
/// single-instruction batch succeeds, and afterwards the destination
/// exists, the source does not, and the number of names is unchanged.
pub proof fn lemma_rename_applies(
    existing: Seq<Seq<char>>,
    from_name: Seq<char>,
    to_name: Seq<char>,
)
    requires
        existing.no_duplicates(),
        existing.contains(from_name),
        !existing.contains(to_name),
    ensures
        apply_renames_plan(existing, seq![(from_name, to_name)]) == Result::<
            Seq<Seq<char>>,
            RenameError,
        >::Ok(remove_first(existing, from_name).push(to_name)),
        remove_first(existing, from_name).push(to_name).contains(to_name),
        !remove_first(existing, from_name).push(to_name).contains(from_name),
        remove_first(existing, from_name).push(to_name).len() == existing.len(),
{
    let pairs = seq![(from_name, to_name)];
    let after = remove_first(existing, from_name).push(to_name);
    assert(pairs[0] == (from_name, to_name));
    assert(pairs.drop_first() =~= Seq::<(Seq<char>, Seq<char>)>::empty());
    assert(apply_renames_plan(after, pairs.drop_first()) == Result::<
        Seq<Seq<char>>,
        RenameError,
    >::Ok(after));
    assert(after[after.len() - 1] == to_name);
    lemma_remove_first_len(existing, from_name);
    lemma_remove_first_gone(existing, from_name);
    assert(!after.contains(from_name)) by {
        if after.contains(from_name) {
            let j = choose|j: int| 0 <= j < after.len() && after[j] == from_name;
            if j == after.len() - 1 {
                assert(to_name == from_name);
            } else {
                assert(after[j] == remove_first(existing, from_name)[j]);
            }
        }
    }
}

} // verus!
