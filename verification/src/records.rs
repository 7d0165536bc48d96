//! Word records: one parsed, non-empty line of a data file, tagged with
//! its folder, type and original 1-based line number.

use vstd::prelude::*;
use crate::text::line_words;
use crate::text::matches_words;
use crate::text::split_clean;
use crate::text::split_tokens;
use crate::text::tokens;

verus! {

/// One word record. Empty lines never produce a record, but they still
/// count for the line numbering of the records that follow them.
#[derive(Debug)]
pub struct Mas {
    pub line: usize,
    pub word: String,
    pub tipo: String,
    pub folder: String,
}

/// The mathematical value of a word record.
#[verifier::ext_equal]
pub ghost struct MasV {
    pub line: int,
    pub word: Seq<char>,
    pub tipo: Seq<char>,
    pub folder: Seq<char>,
}

impl View for Mas {
    type V = MasV;

    open spec fn view(&self) -> MasV {
        MasV { line: self.line as int, word: self.word@, tipo: self.tipo@, folder: self.folder@ }
    }
}

impl Clone for Mas {
    fn clone(&self) -> (r: Self)
        ensures
            r == *self,
    {
        Mas {
            line: self.line,
            word: self.word.clone(),
            tipo: self.tipo.clone(),
            folder: self.folder.clone(),
        }
    }
}

impl Mas {
    /// An empty record, to be filled by `setup` and the parser.
    pub fn new() -> (r: Self)
        ensures
            r.line == 0,
            r.word@ == Seq::<char>::empty(),
            r.tipo@ == Seq::<char>::empty(),
            r.folder@ == Seq::<char>::empty(),
    {
        Mas { line: 0, word: String::new(), tipo: String::new(), folder: String::new() }
    }

    /// Tags the record with the folder and type of the file it came from.
    pub fn setup(self, folder: &String, tipo: &String) -> (r: Self)
        ensures
            r.line == self.line,
            r.word == self.word,
            r.tipo@ == tipo@,
            r.folder@ == folder@,
    {
        Mas { line: self.line, word: self.word, tipo: tipo.clone(), folder: folder.clone() }
    }
}

/// The word records of one file's raw text: one per line whose trim is
/// non-empty, numbered by the line's 1-based position in the original
/// line sequence, each tagged with the given folder and type.
pub open spec fn file_records(content: Seq<char>, folder: Seq<char>, tipo: Seq<char>) -> Seq<
    MasV,
> {
    line_words(content).map_values(
        |p: (int, Seq<char>)| MasV { line: p.0, word: p.1, tipo: tipo, folder: folder },
    )
}

/// `r` holds exactly the records `m`, as runtime values.
pub open spec fn matches_records(r: Seq<Mas>, m: Seq<MasV>) -> bool {
    &&& r.len() == m.len()
    &&& forall|k: int| 0 <= k < m.len() ==> r[k]@ == m[k]
}

/// Raw file text, as handed in by the caller that read it.
pub struct ReadParseFile {
    pub content: String,
}

impl ReadParseFile {
    /// Parses the text into word records: lines are split on `'\n'`,
    /// trimmed, empty lines are dropped, and each surviving line becomes a
    /// record numbered by its original position and tagged with the
    /// template's folder and type.
    pub fn split_mas(self, mas: Mas) -> (r: Vec<Mas>)
        requires
            self.content@.len() < usize::MAX,
        ensures
            matches_records(r@, file_records(self.content@, mas.folder@, mas.tipo@)),
    {
        let ghost m = file_records(self.content@, mas.folder@, mas.tipo@);
        let pairs = split_clean(self.content.as_str());
        let mut out: Vec<Mas> = Vec::new();
        let mut i: usize = 0;
        while i < pairs.len()
            invariant
                i <= pairs@.len(),
                pairs@.len() == m.len(),
                forall|k: int| 0 <= k < pairs@.len() ==> pairs@[k].0 as int == line_words(
                    self.content@,
                )[k].0 && pairs@[k].1@ == line_words(self.content@)[k].1,
                m == file_records(self.content@, mas.folder@, mas.tipo@),
                out@.len() == i,
                forall|k: int| 0 <= k < i ==> out@[k]@ == m[k],
            decreases pairs@.len() - i,
        {
            let rec = Mas {
                line: pairs[i].0,
                word: pairs[i].1.clone(),
                tipo: mas.tipo.clone(),
                folder: mas.folder.clone(),
            };
            proof {
                assert(m[i as int] == MasV {
                    line: line_words(self.content@)[i as int].0,
                    word: line_words(self.content@)[i as int].1,
                    tipo: mas.tipo@,
                    folder: mas.folder@,
                });
            }
            out.push(rec);
            i = i + 1;
        }
        out
    }

    /// Splits the text into its whitespace-separated tokens, in order.
    pub fn split_whitespace(&self) -> (r: Vec<String>)
        ensures
            matches_words(r@, tokens(self.content@)),
    {
        split_tokens(self.content.as_str())
    }
}

} // verus!
