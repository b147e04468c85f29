//! The resolution engine: starting from the entry file it works through
//! a list of pending sub-module declarations, matches each against the
//! two on-disk candidates for its file, and folds every parsed module
//! into the growing analysis result.
//!
//! The engine itself never touches the file system. A caller pops a
//! pending declaration, asks the operating system which of the two
//! candidate files exists, reads it, and hands the text back; the engine
//! does everything else and is verified to keep the result well formed
//! and to take each physical file at most once.

use crate::data::enum_models;
use crate::data::module_models;
use crate::data::rooted;
use crate::data::struct_models;
use crate::data::AnalysisResult;
use crate::data::AnalyzeError;
use crate::data::Crate;
use crate::data::SpecItem;
use crate::parser::item_with_path;
use crate::parser::parse_accepts;
use crate::parser::parse_module_text;
use crate::parser::parse_run;
use crate::parser::spec_module_doc;
use crate::parser::RawItem;
use vstd::prelude::*;

verus! {

/// One declared sub-module waiting to be resolved: the directory its
/// file would live in, the declared name, and the path of the module
/// that declared it.
#[derive(Debug, Clone, PartialEq)]
pub struct Pending {
    pub dir: String,
    pub name: String,
    pub prefix: Vec<String>,
}

/// Which of the two on-disk candidates for a declared sub-module exists:
/// `dir/name.rs`, `dir/name/mod.rs`, or neither.
#[derive(Debug, Clone, Copy, PartialEq, Eq, Structural)]
pub enum Resolution {
    FileFound,
    ModFileFound,
    Missing,
}

/// Decides which on-disk candidate satisfies a declaration, in the
/// fixed preference order: the plain file `dir/name.rs` first, then
/// `dir/name/mod.rs`, else nothing.
pub fn choose_candidate(file_exists: bool, mod_exists: bool) -> (r: Resolution)
    ensures
        file_exists ==> r is FileFound,
        !file_exists && mod_exists ==> r is ModFileFound,
        !file_exists && !mod_exists ==> r is Missing,
{
    if file_exists {
        Resolution::FileFound
    } else if mod_exists {
        Resolution::ModFileFound
    } else {
        Resolution::Missing
    }
}

/// The file that satisfies a declaration when `dir/name.rs` exists.
pub open spec fn file_candidate_spec(p: Pending) -> Seq<char> {
    p.dir@ + "/"@ + p.name@ + ".rs"@
}

/// The file that satisfies a declaration when `dir/name/mod.rs` exists.
pub open spec fn mod_candidate_spec(p: Pending) -> Seq<char> {
    p.dir@ + "/"@ + p.name@ + "/mod.rs"@
}

/// Where the resolved module's own sub-modules live: beside a plain
/// file they move into the module's directory, beside a `mod` file they
/// stay where it is.
pub open spec fn sub_dir_spec(p: Pending, res: Resolution) -> Seq<char> {
    if res is FileFound {
        p.dir@ + "/"@ + p.name@
    } else {
        p.dir@
    }
}

impl Pending {
    /// The first on-disk candidate, `dir/name.rs`.
    pub fn file_candidate(&self) -> (s: String)
        ensures
            s@ == file_candidate_spec(*self),
    {
        let mut s = self.dir.clone();
        s.append("/");
        s.append(self.name.as_str());
        s.append(".rs");
        s
    }

    /// The second on-disk candidate, `dir/name/mod.rs`.
    pub fn mod_candidate(&self) -> (s: String)
        ensures
            s@ == mod_candidate_spec(*self),
    {
        let mut s = self.dir.clone();
        s.append("/");
        s.append(self.name.as_str());
        s.append("/mod.rs");
        s
    }

    /// The directory `dir/name`, home of the module's descendants when
    /// the module lives in its own plain file.
    pub fn dir_candidate(&self) -> (s: String)
        ensures
            s@ == self.dir@ + "/"@ + self.name@,
    {
        let mut s = self.dir.clone();
        s.append("/");
        s.append(self.name.as_str());
        s
    }
}

/// A declared name is tied into the result when the declaring module's
/// path is the entry module's bare crate name, or is the path of a
/// module present in the result that lists the name among its declared
/// sub-modules.
pub open spec fn decl_linked(r: AnalysisResult, prefix: Seq<Seq<char>>, name: Seq<char>) -> bool {
    &&& rooted(r.crate_.name@, prefix)
    &&& (prefix == seq![r.crate_.name@] || exists|j: int|
        0 <= j < r.modules@.len() && {
            let m = (#[trigger] r.modules@[j]).model();
            m.path == prefix && m.members.contains(name)
        })
}

/// Every module, struct and enum of a result sits on a path that starts
/// with the crate name, and every struct and enum names as its parent
/// either the entry module or a module present in the result.
pub open spec fn parent_in(r: AnalysisResult, path: Seq<Seq<char>>) -> bool {
    &&& path.len() >= 2
    &&& path[0] == r.crate_.name@
    &&& (path.subrange(0, path.len() - 1) == seq![r.crate_.name@] || exists|j: int|
        0 <= j < r.modules@.len() && (#[trigger] r.modules@[j]).model().path == path.subrange(
            0,
            path.len() - 1,
        ))
}

pub open spec fn result_wf(r: AnalysisResult) -> bool {
    &&& forall|i: int|
        0 <= i < r.modules@.len() ==> {
            let path = (#[trigger] r.modules@[i]).model().path;
            path.len() >= 2 && decl_linked(r, path.subrange(0, path.len() - 1), path[path.len() - 1])
        }
    &&& forall|i: int|
        0 <= i < r.structs@.len() ==> parent_in(r, (#[trigger] r.structs@[i]).model().path)
    &&& forall|i: int|
        0 <= i < r.enums@.len() ==> parent_in(r, (#[trigger] r.enums@[i]).model().path)
}

/// The engine's state: the work list, the physical files already taken,
/// and the result so far.
#[derive(Debug, Clone)]
pub struct Analyzer {
    pub pending: Vec<Pending>,
    pub processed: Vec<String>,
    pub result: AnalysisResult,
}

impl Analyzer {
    pub open spec fn crate_name(&self) -> Seq<char> {
        self.result.crate_.name@
    }

    pub open spec fn wf(&self) -> bool {
        &&& result_wf(self.result)
        &&& forall|i: int|
            0 <= i < self.pending@.len() ==> {
                let p = #[trigger] self.pending@[i];
                decl_linked(self.result, p.prefix.deep_view(), p.name@)
            }
        &&& forall|i: int, j: int|
            0 <= i < j < self.processed.deep_view().len() ==> self.processed.deep_view()[i]
                != self.processed.deep_view()[j]
    }

    /// A fresh analysis: the package identity alone, an empty doc
    /// comment, empty collections, nothing pending and nothing taken.
    pub fn new(name: String, version: String) -> (a: Analyzer)
        ensures
            a.wf(),
            a.result.crate_.name == name,
            a.result.crate_.version == version,
            a.result.crate_.docstring@ == Seq::<char>::empty(),
            a.result.modules@.len() == 0,
            a.result.structs@.len() == 0,
            a.result.enums@.len() == 0,
            a.pending@.len() == 0,
            a.processed@.len() == 0,
    {
        Analyzer {
            pending: Vec::new(),
            processed: Vec::new(),
            result: AnalysisResult {
                crate_: Crate { name, version, docstring: String::new() },
                modules: Vec::new(),
                structs: Vec::new(),
                enums: Vec::new(),
            },
        }
    }

    /// Whether a candidate file was already taken.
    fn is_processed(&self, c: &String) -> (b: bool)
        ensures
            b == self.processed.deep_view().contains(c@),
    {
        let mut k: usize = 0;
        while k < self.processed.len()
            invariant
                k <= self.processed@.len(),
                forall|j: int| 0 <= j < k ==> self.processed.deep_view()[j] != c@,
            decreases self.processed@.len() - k,
        {
            proof {
                assert(self.processed.deep_view()[k as int] == self.processed@[k as int]@);
            }
            if self.processed[k].eq(c) {
                return true;
            }
            k += 1;
        }
        proof {
            assert(!self.processed.deep_view().contains(c@)) by {
                if self.processed.deep_view().contains(c@) {
                    let j = choose|j: int|
                        0 <= j < self.processed.deep_view().len() && self.processed.deep_view()[j]
                            == c@;
                }
            }
        }
        false
    }

    /// Takes the most recently enqueued pending declaration.
    pub fn pop_pending(&mut self) -> (r: Option<Pending>)
        requires
            old(self).wf(),
        ensures
            final(self).wf(),
            final(self).result == old(self).result,
            final(self).processed == old(self).processed,
            old(self).pending@.len() == 0 ==> r is None && final(self).pending@ == old(
                self,
            ).pending@,
            old(self).pending@.len() > 0 ==> (r matches Some(p) && p == old(self).pending@.last()
                && final(self).pending@ == old(self).pending@.drop_last() && decl_linked(
                old(self).result,
                p.prefix.deep_view(),
                p.name@,
            )),
    {
        let r = self.pending.pop();
        proof {
            if old(self).pending@.len() > 0 {
                assert(self.pending@ =~= old(self).pending@.drop_last());
            }
        }
        r
    }

    /// Claims the resolved file of a pending declaration. A declaration
    /// with no file on disk changes nothing, and a file that was already
    /// taken through some other chain of declarations is not taken
    /// again; otherwise the candidate named by the resolution is marked
    /// taken and handed back so the caller can read it.
    pub fn begin_module(&mut self, p: &Pending, res: Resolution) -> (r: Option<String>)
        requires
            old(self).wf(),
        ensures
            final(self).wf(),
            final(self).result == old(self).result,
            final(self).pending == old(self).pending,
            res is Missing ==> r is None && final(self).processed == old(self).processed,
            !(res is Missing) ==> {
                let cand = if res is FileFound {
                    file_candidate_spec(*p)
                } else {
                    mod_candidate_spec(*p)
                };
                &&& (r is None ==> final(self).processed == old(self).processed && old(
                    self,
                ).processed.deep_view().contains(cand))
                &&& (r matches Some(c) ==> c@ == cand && !old(self).processed.deep_view().contains(
                    cand,
                ) && final(self).processed.deep_view() == old(self).processed.deep_view().push(
                    cand,
                ))
            },
    {
        let cand = match res {
            Resolution::Missing => {
                return None;
            },
            Resolution::FileFound => p.file_candidate(),
            Resolution::ModFileFound => p.mod_candidate(),
        };
        if self.is_processed(&cand) {
            return None;
        }
        let ghost oldp = self.processed.deep_view();
        self.processed.push(cand.clone());
        proof {
            assert(self.processed.deep_view() =~~= oldp.push(cand@));
        }
        Some(cand)
    }

    /// Queues every sub-module that a parsed module declares, against
    /// the directory the module's own descendants live in.
    fn queue_decls(&mut self, dir: &str, prefix: &Vec<String>, decls: Vec<String>)
        requires
            old(self).wf(),
            forall|k: int|
                0 <= k < decls@.len() ==> decl_linked(
                    old(self).result,
                    prefix.deep_view(),
                    decls@[k]@,
                ),
        ensures
            final(self).wf(),
            final(self).result == old(self).result,
            final(self).processed == old(self).processed,
            final(self).pending@.len() == old(self).pending@.len() + decls@.len(),
            final(self).pending@.subrange(0, old(self).pending@.len() as int) == old(
                self,
            ).pending@,
            forall|k: int|
                0 <= k < decls@.len() ==> {
                    let p = #[trigger] final(self).pending@[old(self).pending@.len() + k];
                    &&& p.dir@ == dir@
                    &&& p.name@ == decls@[k]@
                    &&& p.prefix.deep_view() == prefix.deep_view()
                },
    {
        let mut k: usize = 0;
        while k < decls.len()
            invariant
                k <= decls@.len(),
                old(self).wf(),
                forall|j: int|
                    0 <= j < decls@.len() ==> decl_linked(
                        old(self).result,
                        prefix.deep_view(),
                        decls@[j]@,
                    ),
                self.result == old(self).result,
                self.processed == old(self).processed,
                self.pending@.len() == old(self).pending@.len() + k,
                self.pending@.subrange(0, old(self).pending@.len() as int) == old(self).pending@,
                forall|i: int|
                    0 <= i < self.pending@.len() ==> {
                        let p = #[trigger] self.pending@[i];
                        decl_linked(self.result, p.prefix.deep_view(), p.name@)
                    },
                forall|j: int|
                    0 <= j < k ==> {
                        let p = #[trigger] self.pending@[old(self).pending@.len() + j];
                        &&& p.dir@ == dir@
                        &&& p.name@ == decls@[j]@
                        &&& p.prefix.deep_view() == prefix.deep_view()
                    },
            decreases decls@.len() - k,
        {
            let p = Pending {
                dir: dir.to_owned(),
                name: decls[k].clone(),
                prefix: crate::parser::clone_strings(prefix),
            };
            proof {
                assert(p.prefix.deep_view() =~~= prefix.deep_view());
            }
            self.pending.push(p);
            proof {
                assert(self.pending@.subrange(0, old(self).pending@.len() as int) =~= old(
                    self,
                ).pending@);
            }
            k += 1;
        }
    }

    /// Folds the entry file into the analysis: its doc comment becomes
    /// the crate's docstring, its structs and enums enter the result
    /// directly under the crate name, and its declared sub-modules are
    /// queued against the entry file's directory. A text that cannot be
    /// parsed aborts the analysis and leaves the state as it was.
    pub fn load_entry(&mut self, entry_dir: &str, text: &str) -> (r: Result<(), AnalyzeError>)
        requires
            old(self).wf(),
        ensures
            final(self).wf(),
            r is Ok <==> parse_accepts(text@),
            r matches Err(e) ==> e is SourceParseError && *final(self) == *old(self),
            r is Ok ==> ({
                let st = parse_run(text@);
                let root = seq![old(self).crate_name()];
                &&& final(self).result.crate_.name == old(self).result.crate_.name
                &&& final(self).result.crate_.version == old(self).result.crate_.version
                &&& final(self).result.crate_.docstring@ == spec_module_doc(text@)
                &&& final(self).result.modules == old(self).result.modules
                &&& struct_models(final(self).result.structs@) == struct_models(
                    old(self).result.structs@,
                ) + st.structs.map_values(|ri: RawItem| item_with_path(root, ri))
                &&& enum_models(final(self).result.enums@) == enum_models(
                    old(self).result.enums@,
                ) + st.enums.map_values(|ri: RawItem| item_with_path(root, ri))
                &&& final(self).processed == old(self).processed
                &&& final(self).pending@.len() == old(self).pending@.len() + st.decls.len()
                &&& final(self).pending@.subrange(0, old(self).pending@.len() as int) == old(
                    self,
                ).pending@
                &&& forall|k: int|
                    0 <= k < st.decls.len() ==> {
                        let p = #[trigger] final(self).pending@[old(self).pending@.len() + k];
                        &&& p.dir@ == entry_dir@
                        &&& p.name@ == st.decls[k]
                        &&& p.prefix.deep_view() == root
                    }
            }),
    {
        let path = vec![self.result.crate_.name.clone()];
        proof {
            assert(path.deep_view() =~~= seq![old(self).crate_name()]);
        }
        match parse_module_text(&path, text) {
            Err(e) => Err(e),
            Ok((module, mut ss, mut es)) => {
                let ghost root = seq![old(self).crate_name()];
                let ghost olds = self.result.structs@;
                let ghost olde = self.result.enums@;
                let ghost ssv = ss@;
                let ghost esv = es@;
                self.result.crate_.docstring = module.docstring;
                self.result.structs.append(&mut ss);
                self.result.enums.append(&mut es);
                proof {
                    lemma_struct_models_concat(olds, ssv);
                    lemma_enum_models_concat(olde, esv);
                    assert(self.result.structs@ == olds + ssv);
                    assert(self.result.enums@ == olde + esv);
                    assert forall|i: int| 0 <= i < self.result.structs@.len() implies parent_in(
                        self.result,
                        (#[trigger] self.result.structs@[i]).model().path,
                    ) by {
                        let pth = self.result.structs@[i].model().path;
                        if i < olds.len() {
                            assert(self.result.structs@[i] == old(self).result.structs@[i]);
                            assert(parent_in(old(self).result, pth));
                            lemma_parent_in_extends(old(self).result, self.result, pth);
                        } else {
                            let ii = i - olds.len();
                            assert(self.result.structs@[i] == ssv[ii]);
                            assert(struct_models(ssv)[ii] == ssv[ii].model());
                            assert(struct_models(ssv)[ii] == item_with_path(
                                path.deep_view(),
                                parse_run(text@).structs[ii],
                            ));
                            assert(pth == root.push(parse_run(text@).structs[ii].name));
                            assert(pth.subrange(0, pth.len() - 1) =~= root);
                            assert(pth.subrange(0, pth.len() - 1) == seq![
                                self.result.crate_.name@,
                            ]);
                        }
                    }
                    assert forall|i: int| 0 <= i < self.result.enums@.len() implies parent_in(
                        self.result,
                        (#[trigger] self.result.enums@[i]).model().path,
                    ) by {
                        let pth = self.result.enums@[i].model().path;
                        if i < olde.len() {
                            assert(self.result.enums@[i] == old(self).result.enums@[i]);
                            assert(parent_in(old(self).result, pth));
                            lemma_parent_in_extends(old(self).result, self.result, pth);
                        } else {
                            let ii = i - olde.len();
                            assert(self.result.enums@[i] == esv[ii]);
                            assert(enum_models(esv)[ii] == esv[ii].model());
                            assert(enum_models(esv)[ii] == item_with_path(
                                path.deep_view(),
                                parse_run(text@).enums[ii],
                            ));
                            assert(pth == root.push(parse_run(text@).enums[ii].name));
                            assert(pth.subrange(0, pth.len() - 1) =~= root);
                            assert(pth.subrange(0, pth.len() - 1) == seq![
                                self.result.crate_.name@,
                            ]);
                        }
                    }
                    assert(self.wf());
                }
                let decls = module.declarations;
                proof {
                    assert forall|k: int| 0 <= k < decls@.len() implies decls@[k]@ == parse_run(
                        text@,
                    ).decls[k] by {
                        assert(decls.deep_view()[k] == decls@[k]@);
                    }
                }
                self.queue_decls(entry_dir, &path, decls);
                Ok(())
            },
        }
    }

    /// Folds one resolved sub-module into the analysis: the parsed
    /// module enters the result at the declaring module's path extended
    /// by the declared name, its structs and enums under that same path,
    /// and its own declarations are queued against the directory that
    /// the kind of match dictates. A text that cannot be parsed aborts
    /// the analysis and leaves the state as it was.
    pub fn finish_module(&mut self, p: &Pending, res: Resolution, text: &str) -> (r: Result<
        (),
        AnalyzeError,
    >)
        requires
            old(self).wf(),
            decl_linked(old(self).result, p.prefix.deep_view(), p.name@),
        ensures
            final(self).wf(),
            r is Ok <==> parse_accepts(text@),
            r matches Err(e) ==> e is SourceParseError && *final(self) == *old(self),
            r is Ok ==> ({
                let st = parse_run(text@);
                let mpath = p.prefix.deep_view().push(p.name@);
                &&& final(self).result.crate_ == old(self).result.crate_
                &&& final(self).processed == old(self).processed
                &&& module_models(final(self).result.modules@) == module_models(
                    old(self).result.modules@,
                ).push(
                    (SpecItem {
                        path: mpath,
                        docstring: spec_module_doc(text@),
                        members: st.decls,
                    }),
                )
                &&& struct_models(final(self).result.structs@) == struct_models(
                    old(self).result.structs@,
                ) + st.structs.map_values(|ri: RawItem| item_with_path(mpath, ri))
                &&& enum_models(final(self).result.enums@) == enum_models(
                    old(self).result.enums@,
                ) + st.enums.map_values(|ri: RawItem| item_with_path(mpath, ri))
                &&& final(self).pending@.len() == old(self).pending@.len() + st.decls.len()
                &&& final(self).pending@.subrange(0, old(self).pending@.len() as int) == old(
                    self,
                ).pending@
                &&& forall|k: int|
                    0 <= k < st.decls.len() ==> {
                        let q = #[trigger] final(self).pending@[old(self).pending@.len() + k];
                        &&& q.dir@ == sub_dir_spec(*p, res)
                        &&& q.name@ == st.decls[k]
                        &&& q.prefix.deep_view() == mpath
                    }
            }),
    {
        let mpath = crate::parser::path_push(&p.prefix, &p.name);
        let ghost mpath_seq = p.prefix.deep_view().push(p.name@);
        match parse_module_text(&mpath, text) {
            Err(e) => Err(e),
            Ok((module, mut ss, mut es)) => {
                let decls_copy = crate::parser::clone_strings(&module.declarations);
                proof {
                    assert forall|k: int| 0 <= k < decls_copy@.len() implies decls_copy@[k]@
                        == parse_run(text@).decls[k] by {
                        assert(module.declarations.deep_view()[k] == module.declarations@[k]@);
                        assert(decls_copy@[k]@ == module.declarations@[k]@);
                    }
                }
                let subdir = match res {
                    Resolution::FileFound => p.dir_candidate(),
                    _ => p.dir.clone(),
                };
                let ghost oldm = self.result.modules@;
                let ghost olds = self.result.structs@;
                let ghost olde = self.result.enums@;
                let ghost ssv = ss@;
                let ghost esv = es@;
                let ghost mm = module.model();
                self.result.modules.push(module);
                self.result.structs.append(&mut ss);
                self.result.enums.append(&mut es);
                proof {
                    lemma_module_models_push(oldm, self.result.modules@.last());
                    lemma_struct_models_concat(olds, ssv);
                    lemma_enum_models_concat(olde, esv);
                    assert(self.result.modules@ == oldm.push(self.result.modules@.last()));
                    assert(mm =~~= (SpecItem {
                        path: mpath_seq,
                        docstring: spec_module_doc(text@),
                        members: parse_run(text@).decls,
                    }));
                    assert forall|i: int| 0 <= i < self.result.modules@.len() implies {
                        let pth = (#[trigger] self.result.modules@[i]).model().path;
                        pth.len() >= 2 && decl_linked(
                            self.result,
                            pth.subrange(0, pth.len() - 1),
                            pth[pth.len() - 1],
                        )
                    } by {
                        let pth = self.result.modules@[i].model().path;
                        if i < oldm.len() {
                            assert(self.result.modules@[i] == old(self).result.modules@[i]);
                            assert(decl_linked(
                                old(self).result,
                                pth.subrange(0, pth.len() - 1),
                                pth[pth.len() - 1],
                            ));
                            lemma_decl_linked_extends(
                                old(self).result,
                                self.result,
                                pth.subrange(0, pth.len() - 1),
                                pth[pth.len() - 1],
                            );
                        } else {
                            // the appended module: its parent is the module that
                            // declared it, carried in by the pending entry
                            assert(self.result.modules@[i].model() == mm);
                            assert(pth == mpath_seq);
                            assert(pth.subrange(0, pth.len() - 1) =~= p.prefix.deep_view());
                            assert(pth[pth.len() - 1] == p.name@);
                            lemma_decl_linked_extends(
                                old(self).result,
                                self.result,
                                p.prefix.deep_view(),
                                p.name@,
                            );
                        }
                    }
                    assert forall|i: int| 0 <= i < self.pending@.len() implies {
                        let q = #[trigger] self.pending@[i];
                        decl_linked(self.result, q.prefix.deep_view(), q.name@)
                    } by {
                        let q = self.pending@[i];
                        assert(decl_linked(old(self).result, q.prefix.deep_view(), q.name@));
                        lemma_decl_linked_extends(
                            old(self).result,
                            self.result,
                            q.prefix.deep_view(),
                            q.name@,
                        );
                    }
                    assert forall|i: int| 0 <= i < self.result.structs@.len() implies parent_in(
                        self.result,
                        (#[trigger] self.result.structs@[i]).model().path,
                    ) by {
                        let pth = self.result.structs@[i].model().path;
                        if i < olds.len() {
                            assert(self.result.structs@[i] == old(self).result.structs@[i]);
                            assert(parent_in(old(self).result, pth));
                            lemma_parent_in_extends(old(self).result, self.result, pth);
                        } else {
                            let ii = i - olds.len();
                            assert(self.result.structs@[i] == ssv[ii]);
                            assert(struct_models(ssv)[ii] == ssv[ii].model());
                            assert(struct_models(ssv)[ii] == item_with_path(
                                mpath.deep_view(),
                                parse_run(text@).structs[ii],
                            ));
                            assert(mpath.deep_view() == mpath_seq);
                            assert(pth == mpath_seq.push(parse_run(text@).structs[ii].name));
                            assert(pth.subrange(0, pth.len() - 1) =~= mpath_seq);
                            assert(self.result.modules@[oldm.len() as int].model().path
                                == mpath_seq);
                        }
                    }
                    assert forall|i: int| 0 <= i < self.result.enums@.len() implies parent_in(
                        self.result,
                        (#[trigger] self.result.enums@[i]).model().path,
                    ) by {
                        let pth = self.result.enums@[i].model().path;
                        if i < olde.len() {
                            assert(self.result.enums@[i] == old(self).result.enums@[i]);
                            assert(parent_in(old(self).result, pth));
                            lemma_parent_in_extends(old(self).result, self.result, pth);
                        } else {
                            let ii = i - olde.len();
                            assert(self.result.enums@[i] == esv[ii]);
                            assert(enum_models(esv)[ii] == esv[ii].model());
                            assert(enum_models(esv)[ii] == item_with_path(
                                mpath.deep_view(),
                                parse_run(text@).enums[ii],
                            ));
                            assert(mpath.deep_view() == mpath_seq);
                            assert(pth == mpath_seq.push(parse_run(text@).enums[ii].name));
                            assert(pth.subrange(0, pth.len() - 1) =~= mpath_seq);
                            assert(self.result.modules@[oldm.len() as int].model().path
                                == mpath_seq);
                        }
                    }
                    assert(self.wf());
                    assert forall|k: int| 0 <= k < decls_copy@.len() implies decl_linked(
                        self.result,
                        mpath.deep_view(),
                        decls_copy@[k]@,
                    ) by {
                        let m = self.result.modules@[oldm.len() as int].model();
                        assert(m == mm);
                        assert(m.path == mpath_seq);
                        assert(m.members == parse_run(text@).decls);
                        assert(m.members.contains(decls_copy@[k]@)) by {
                            assert(m.members[k] == decls_copy@[k]@);
                        }
                        assert(mpath.deep_view() == mpath_seq);
                        assert(rooted(self.result.crate_.name@, mpath_seq));
                    }
                }
                self.queue_decls(subdir.as_str(), &mpath, decls_copy);
                Ok(())
            },
        }
    }

    /// Hands the analysis back once the work list is empty.
    pub fn into_result(self) -> (r: AnalysisResult)
        requires
            self.wf(),
        ensures
            r == self.result,
            result_wf(r),
    {
        self.result
    }
}

/// `parent_in` survives a change to the result that keeps the crate
/// name and at most appends modules.
proof fn lemma_parent_in_extends(r1: AnalysisResult, r2: AnalysisResult, path: Seq<Seq<char>>)
    requires
        parent_in(r1, path),
        r2.crate_.name@ == r1.crate_.name@,
        r1.modules@.len() <= r2.modules@.len(),
        forall|j: int| 0 <= j < r1.modules@.len() ==> r2.modules@[j] == r1.modules@[j],
    ensures
        parent_in(r2, path),
{
    if path.subrange(0, path.len() - 1) != seq![r1.crate_.name@] {
        let j = choose|j: int|
            0 <= j < r1.modules@.len() && (#[trigger] r1.modules@[j]).model().path
                == path.subrange(0, path.len() - 1);
        assert(r2.modules@[j].model().path == path.subrange(0, path.len() - 1));
    }
}

/// `decl_linked` survives the same changes.
proof fn lemma_decl_linked_extends(
    r1: AnalysisResult,
    r2: AnalysisResult,
    prefix: Seq<Seq<char>>,
    name: Seq<char>,
)
    requires
        decl_linked(r1, prefix, name),
        r2.crate_.name@ == r1.crate_.name@,
        r1.modules@.len() <= r2.modules@.len(),
        forall|j: int| 0 <= j < r1.modules@.len() ==> r2.modules@[j] == r1.modules@[j],
    ensures
        decl_linked(r2, prefix, name),
{
    if prefix != seq![r1.crate_.name@] {
        let j = choose|j: int|
            0 <= j < r1.modules@.len() && {
                let m = (#[trigger] r1.modules@[j]).model();
                m.path == prefix && m.members.contains(name)
            };
        assert(r2.modules@[j].model().path == prefix);
        assert(r2.modules@[j].model().members.contains(name));
    }
}

proof fn lemma_struct_models_concat(a: Seq<crate::data::Struct>, b: Seq<crate::data::Struct>)
    ensures
        struct_models(a + b) == struct_models(a) + struct_models(b),
{
    assert(struct_models(a + b) =~~= struct_models(a) + struct_models(b));
}

proof fn lemma_enum_models_concat(a: Seq<crate::data::Enum>, b: Seq<crate::data::Enum>)
    ensures
        enum_models(a + b) == enum_models(a) + enum_models(b),
{
    assert(enum_models(a + b) =~~= enum_models(a) + enum_models(b));
}

proof fn lemma_module_models_push(a: Seq<crate::data::Module>, m: crate::data::Module)
    ensures
        module_models(a.push(m)) == module_models(a).push(m.model()),
{
    assert(module_models(a.push(m)) =~~= module_models(a).push(m.model()));
}

/// In a well-formed analysis, every struct and enum path names its
/// module as a strict prefix and carries the crate name first: the
/// parent is the entry module or a module present in the result.
pub proof fn lemma_item_paths_rooted(r: AnalysisResult)
    requires
        result_wf(r),
    ensures
        forall|i: int|
            0 <= i < r.structs@.len() ==> parent_in(r, (#[trigger] r.structs@[i]).model().path),
        forall|i: int|
            0 <= i < r.enums@.len() ==> parent_in(r, (#[trigger] r.enums@[i]).model().path),
{
}

/// In a well-formed analysis the modules form a tree rooted at the
/// crate name: every module's path extends a parent path by one declared
/// name, and that parent is the entry module or a module present in the
/// result whose declarations list the name.
pub proof fn lemma_module_tree(r: AnalysisResult)
    requires
        result_wf(r),
    ensures
        forall|i: int|
            0 <= i < r.modules@.len() ==> {
                let path = (#[trigger] r.modules@[i]).model().path;
                path.len() >= 2 && decl_linked(
                    r,
                    path.subrange(0, path.len() - 1),
                    path[path.len() - 1],
                )
            },
{
}

/// In a well-formed engine state no physical file was taken twice: the
/// processed paths are pairwise distinct.
pub proof fn lemma_processed_distinct(a: Analyzer)
    requires
        a.wf(),
    ensures
        forall|i: int, j: int|
            0 <= i < j < a.processed.deep_view().len() ==> a.processed.deep_view()[i]
                != a.processed.deep_view()[j],
{
}

} // verus!
