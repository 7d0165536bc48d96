//! The run's assembled state: the immutable configuration (folder list,
//! type list, rename script) and the vocabulary store built from it, plus
//! the derivation of the rename batch over the store's layout.

use vstd::prelude::*;
use crate::records::ReadParseFile;
use crate::script::ChangeV;
use crate::script::ParseError;
use crate::script::Rename;
use crate::script::clean_lines;
use crate::script::comment_prefix;
use crate::script::parse_changes;
use crate::store::Vocabulary;
use crate::text::dot_join;
use crate::text::dotted;
use crate::text::joined;
use crate::text::matches_words;
use crate::text::path_join;
use crate::text::tokens;
use vstd::string::StringExecFns;

verus! {

/// The configured folder list, read from `folders.on`.
pub struct Folders {
    pub name: String,
    pub file_name: String,
    pub file_path: String,
    pub list: Vec<String>,
}

impl Folders {
    /// An empty list, to be filled by `setup`.
    pub fn new() -> (r: Self)
        ensures
            r.list@.len() == 0,
    {
        Folders {
            name: String::new(),
            file_name: String::new(),
            file_path: String::new(),
            list: Vec::new(),
        }
    }

    /// Derives the list's file location under the configuration directory
    /// and parses the given file text into whitespace-separated names.
    pub fn setup(self, dir: &String, content: &str) -> (r: Self)
        ensures
            r.name@ == "folders"@,
            r.file_name@ == "folders.on"@,
            r.file_path@ == joined(dir@, "folders.on"@),
            matches_words(r.list@, tokens(content@)),
    {
        let parser = ReadParseFile { content: String::from_str(content) };
        let list = parser.split_whitespace();
        Folders {
            name: String::from_str("folders"),
            file_name: String::from_str("folders.on"),
            file_path: path_join(dir.as_str(), "folders.on"),
            list,
        }
    }
}

/// The configured type list, read from `types.on`.
pub struct Types {
    pub name: String,
    pub file_name: String,
    pub file_path: String,
    pub list: Vec<String>,
}

impl Types {
    /// An empty list, to be filled by `setup`.
    pub fn new() -> (r: Self)
        ensures
            r.list@.len() == 0,
    {
        Types {
            name: String::new(),
            file_name: String::new(),
            file_path: String::new(),
            list: Vec::new(),
        }
    }

    /// Derives the list's file location under the configuration directory
    /// and parses the given file text into whitespace-separated names.
    pub fn setup(self, dir: &String, content: &str) -> (r: Self)
        ensures
            r.name@ == "types"@,
            r.file_name@ == "types.on"@,
            r.file_path@ == joined(dir@, "types.on"@),
            matches_words(r.list@, tokens(content@)),
    {
        let parser = ReadParseFile { content: String::from_str(content) };
        let list = parser.split_whitespace();
        Types {
            name: String::from_str("types"),
            file_name: String::from_str("types.on"),
            file_path: path_join(dir.as_str(), "types.on"),
            list,
        }
    }
}

/// The run's immutable configuration: the configuration directory and the
/// three values loaded from it.
pub struct Config {
    pub dir: String,
    pub folders: Folders,
    pub rename: Rename,
    pub types: Types,
}

impl Config {
    /// An empty configuration, to be filled by `setup`.
    pub fn new() -> (r: Self)
        ensures
            r.folders.list@.len() == 0,
            r.types.list@.len() == 0,
            r.rename.comments@.len() == 0,
            r.rename.changes@.len() == 0,
    {
        Config {
            dir: String::new(),
            folders: Folders::new(),
            types: Types::new(),
            rename: Rename::new(),
        }
    }

    /// Assembles the configuration from the three file texts that the
    /// caller read under `<current_dir>/config`. Fails exactly when the
    /// rename script holds a malformed line.
    pub fn setup(
        self,
        current_dir: &String,
        folders_content: &str,
        types_content: &str,
        rename_content: &str,
    ) -> (r: Result<Self, ParseError>)
        requires
            rename_content@.len() < usize::MAX,
        ensures
            ({
                let lines = clean_lines(rename_content@);
                let k = comment_prefix(lines);
                match r {
                    Result::Ok(c) => {
                        &&& c.dir@ == joined(current_dir@, "config"@)
                        &&& matches_words(c.folders.list@, tokens(folders_content@))
                        &&& matches_words(c.types.list@, tokens(types_content@))
                        &&& c.folders.file_path@ == joined(c.dir@, "folders.on"@)
                        &&& c.types.file_path@ == joined(c.dir@, "types.on"@)
                        &&& c.rename.file_path@ == joined(c.dir@, "rename.on"@)
                        &&& parse_changes(lines.skip(k)) is Some
                        &&& matches_words(c.rename.comments@, lines.take(k))
                        &&& crate::script::matches_changes(
                            c.rename.changes@,
                            parse_changes(lines.skip(k)).unwrap(),
                        )
                    },
                    Result::Err(e) => {
                        &&& e == ParseError::MalformedRenameLine
                        &&& parse_changes(lines.skip(k)) is None
                    },
                }
            }),
    {
        let dir = path_join(current_dir.as_str(), "config");
        let folders = Folders::new().setup(&dir, folders_content);
        let types = Types::new().setup(&dir, types_content);
        match Rename::new().setup(&dir, rename_content) {
            Result::Ok(rename) => Result::Ok(Config { dir, folders, types, rename }),
            Result::Err(e) => Result::Err(e),
        }
    }
}

/// One (source, destination) path pair per folder and instruction: the
/// instruction's base names under that folder's directory, with the fixed
/// extension.
pub open spec fn folder_pairs(dir: Seq<char>, folder: Seq<char>, changes: Seq<ChangeV>) -> Seq<
    (Seq<char>, Seq<char>),
>
    decreases changes.len(),
{
    if changes.len() == 0 {
        Seq::empty()
    } else {
        seq![
            (
                joined(joined(dir, folder), dotted(changes[0].from, "on"@)),
                joined(joined(dir, folder), dotted(changes[0].to, "on"@)),
            ),
        ] + folder_pairs(dir, folder, changes.drop_first())
    }
}

/// The whole rename batch, folder-major: every instruction is applied
/// under every configured folder, in configuration order.
pub open spec fn rename_pairs(dir: Seq<char>, folders: Seq<Seq<char>>, changes: Seq<
    ChangeV,
>) -> Seq<(Seq<char>, Seq<char>)>
    decreases folders.len(),
{
    if folders.len() == 0 {
        Seq::empty()
    } else {
        folder_pairs(dir, folders[0], changes) + rename_pairs(dir, folders.drop_first(), changes)
    }
}

/// The run's state: its working directory, configuration, vocabulary
/// store and name. Built once per run; the store is read-only afterwards.
pub struct Sphere {
    pub current_dir: String,
    pub config: Config,
    pub vocabulary: Vocabulary,
    pub name: String,
}

impl Sphere {
    /// An empty state, to be assembled by the caller from the
    /// configuration files.
    pub fn new() -> (r: Self)
        ensures
            r.current_dir@ == Seq::<char>::empty(),
            r.name@ == Seq::<char>::empty(),
            r.config.folders.list@.len() == 0,
            r.config.types.list@.len() == 0,
            r.vocabulary.carrier@.len() == 0,
            r.vocabulary.data_all@.len() == 0,
    {
        Sphere {
            current_dir: String::new(),
            config: Config::new(),
            vocabulary: Vocabulary::new(),
            name: String::new(),
        }
    }

    /// The full rename batch over the store's layout: for every configured
    /// folder and every parsed instruction, the source and destination
    /// paths `<store>/<folder>/<name>.on`, folder-major, in order.
    pub fn rename_paths(&self) -> (r: Vec<(String, String)>)
        ensures
            crate::script::pair_views(r@) == rename_pairs(
                self.vocabulary.dir@,
                crate::text::views_of(self.config.folders.list@),
                self.config.rename.changes@.map_values(|c: crate::script::Change| c@),
            ),
    {
        let ghost fv = crate::text::views_of(self.config.folders.list@);
        let ghost cv = self.config.rename.changes@.map_values(|c: crate::script::Change| c@);
        let ghost target = rename_pairs(self.vocabulary.dir@, fv, cv);
        let mut acc: Vec<(String, String)> = Vec::new();
        let mut i: usize = 0;
        proof {
            assert(fv.skip(0) =~= fv);
        }
        while i < self.config.folders.list.len()
            invariant
                fv == crate::text::views_of(self.config.folders.list@),
                cv == self.config.rename.changes@.map_values(|c: crate::script::Change| c@),
                target == rename_pairs(self.vocabulary.dir@, fv, cv),
                i <= fv.len(),
                crate::script::pair_views(acc@).len() == acc@.len(),
                acc@.len() <= target.len(),
                forall|k: int| 0 <= k < acc@.len() ==> (#[trigger] acc@[k].0)@ == target[k].0
                    && acc@[k].1@ == target[k].1,
                target.skip(acc@.len() as int) == rename_pairs(
                    self.vocabulary.dir@,
                    fv.skip(i as int),
                    cv,
                ),
            decreases fv.len() - i,
        {
            proof {
                assert(fv.skip(i as int)[0] == fv[i as int]);
                assert(fv[i as int] == self.config.folders.list@[i as int]@);
                assert(fv.skip(i as int).drop_first() =~= fv.skip(i as int + 1));
                assert(rename_pairs(self.vocabulary.dir@, fv.skip(i as int), cv) == folder_pairs(
                    self.vocabulary.dir@,
                    fv[i as int],
                    cv,
                ) + rename_pairs(self.vocabulary.dir@, fv.skip(i as int + 1), cv));
            }
            let folder_dir = path_join(
                self.vocabulary.dir.as_str(),
                self.config.folders.list[i].as_str(),
            );
            let mut j: usize = 0;
            proof {
                assert(cv.skip(0) =~= cv);
            }
            while j < self.config.rename.changes.len()
                invariant
                    fv == crate::text::views_of(self.config.folders.list@),
                    cv == self.config.rename.changes@.map_values(
                        |c: crate::script::Change| c@,
                    ),
                    target == rename_pairs(self.vocabulary.dir@, fv, cv),
                    i < fv.len(),
                    folder_dir@ == joined(self.vocabulary.dir@, fv[i as int]),
                    j <= cv.len() == self.config.rename.changes@.len(),
                    acc@.len() <= target.len(),
                    forall|k: int| 0 <= k < acc@.len() ==> (#[trigger] acc@[k].0)@ == target[k].0
                        && acc@[k].1@ == target[k].1,
                    target.skip(acc@.len() as int) == folder_pairs(
                        self.vocabulary.dir@,
                        fv[i as int],
                        cv.skip(j as int),
                    ) + rename_pairs(self.vocabulary.dir@, fv.skip(i as int + 1), cv),
                decreases cv.len() - j,
            {
                proof {
                    let fp = folder_pairs(self.vocabulary.dir@, fv[i as int], cv.skip(j as int));
                    assert(cv.skip(j as int)[0] == cv[j as int]);
                    assert(cv[j as int] == self.config.rename.changes@[j as int]@);
                    assert(cv.skip(j as int).drop_first() =~= cv.skip(j as int + 1));
                    assert(fp[0] == (
                        joined(
                            joined(self.vocabulary.dir@, fv[i as int]),
                            dotted(cv[j as int].from, "on"@),
                        ),
                        joined(
                            joined(self.vocabulary.dir@, fv[i as int]),
                            dotted(cv[j as int].to, "on"@),
                        ),
                    ));
                    assert(target.skip(acc@.len() as int).len() == target.len() - acc@.len());
                    assert(fp.len() >= 1);
                    assert(target.skip(acc@.len() as int)[0] == target[acc@.len() as int]);
                    assert(fp.drop_first() =~= folder_pairs(
                        self.vocabulary.dir@,
                        fv[i as int],
                        cv.skip(j as int + 1),
                    ));
                    assert((fp + rename_pairs(
                        self.vocabulary.dir@,
                        fv.skip(i as int + 1),
                        cv,
                    )).drop_first() =~= fp.drop_first() + rename_pairs(
                        self.vocabulary.dir@,
                        fv.skip(i as int + 1),
                        cv,
                    ));
                    assert(target.skip(acc@.len() as int).drop_first() =~= target.skip(
                        acc@.len() as int + 1,
                    ));
                }
                let change = &self.config.rename.changes[j];
                let old_file = dot_join(change.from.as_str(), "on");
                let new_file = dot_join(change.to.as_str(), "on");
                let old_path = path_join(folder_dir.as_str(), old_file.as_str());
                let new_path = path_join(folder_dir.as_str(), new_file.as_str());
                acc.push((old_path, new_path));
                j = j + 1;
            }
            proof {
                assert(folder_pairs(
                    self.vocabulary.dir@,
                    fv[i as int],
                    cv.skip(cv.len() as int),
                ) =~= Seq::<(Seq<char>, Seq<char>)>::empty());
                assert(Seq::<(Seq<char>, Seq<char>)>::empty() + rename_pairs(
                    self.vocabulary.dir@,
                    fv.skip(i as int + 1),
                    cv,
                ) =~= rename_pairs(self.vocabulary.dir@, fv.skip(i as int + 1), cv));
            }
            i = i + 1;
        }
        proof {
            assert(fv.skip(fv.len() as int) =~= Seq::<Seq<char>>::empty());
            assert(target.skip(acc@.len() as int).len() == target.len() - acc@.len());
            assert(crate::script::pair_views(acc@) =~= target);
        }
        acc
    }
}

/// The word text of every record of the flat aggregate, in order: the
/// list handed to the downstream word-filtering consumer.
pub fn extract_forbid_words(sphere: &Sphere) -> (r: Vec<String>)
    ensures
        r@.len() == sphere.vocabulary.data_all@.len(),
        forall|k: int| 0 <= k < r@.len() ==> (#[trigger] r@[k])@
            == sphere.vocabulary.data_all@[k].word@,
{
    let mut acc: Vec<String> = Vec::new();
    let mut i: usize = 0;
    while i < sphere.vocabulary.data_all.len()
        invariant
            i <= sphere.vocabulary.data_all@.len(),
            acc@.len() == i,
            forall|k: int| 0 <= k < i ==> (#[trigger] acc@[k])@
                == sphere.vocabulary.data_all@[k].word@,
        decreases sphere.vocabulary.data_all@.len() - i,
    {
        acc.push(sphere.vocabulary.data_all[i].word.clone());
        i = i + 1;
    }
    acc
}

} // verus!
