//! From a directory's path to its identifier in the store.
use vstd::prelude::*;
use crate::error::EngineError;
use crate::snapshot::text_of;
use crate::state::{StoreState, lemma_directory_id_at};
use crate::store::{MetadataStore, lemma_with_directory_wf};

verus! {

/// What resolving `path` does to the state `s`, and what it gives. A path
/// without a text form is an error. A path that the store holds, letter for
/// letter, gives the identifier recorded for it. Any other path gets a new
/// record under the next free identifier, unless none is left.
pub open spec fn resolve(s: StoreState, path: Option<Seq<char>>) -> (
    StoreState,
    Result<i64, EngineError>,
) {
    match path {
        None => (s, Err(EngineError::PathEncoding)),
        Some(p) => match s.directory_id(p) {
            Some(id) => (s, Ok(id)),
            None => if s.next_dir_id < i64::MAX {
                (s.with_directory(p), Ok(s.next_dir_id))
            } else {
                (s, Err(EngineError::Store))
            },
        },
    }
}

/// After a path was resolved, the store holds a record for it under the
/// identifier that was given, and resolving it again changes nothing and
/// gives the same identifier.
pub proof fn lemma_resolve_settles(s: StoreState, path: Option<Seq<char>>)
    requires
        s.wf(),
    ensures
        resolve(s, path).0.wf(),
        resolve(s, path).0.files == s.files,
        resolve(s, path).0.log == s.log,
        resolve(s, path).0.next_file_id == s.next_file_id,
        match resolve(s, path).1 {
            Ok(id) => {
                &&& path.is_some()
                &&& resolve(s, path).0.directory_id(path.unwrap()) == Some(id)
                &&& resolve(s, path).0.has_directory_id(id)
                &&& resolve(resolve(s, path).0, path) == resolve(s, path)
                &&& s.has_directory_id(id) ==> resolve(s, path).0 == s
            },
            Err(_) => resolve(s, path).0 == s,
        },
{
    match path {
        None => {},
        Some(p) => {
            match s.directory_id(p) {
                Some(id) => {
                    let i = choose|i: int| s.dir_at(i, p);
                    assert(s.dir_at(i, p));
                    assert(s.dir_id_at(i, id));
                },
                None => {
                    if s.next_dir_id < i64::MAX {
                        let r = s.with_directory(p);
                        lemma_with_directory_wf(s, p);
                        let last = s.dirs.len() as int;
                        assert(r.dir_at(last, p));
                        assert(r.dir_id_at(last, s.next_dir_id));
                        lemma_directory_id_at(r, last, p);
                        if s.has_directory_id(s.next_dir_id) {
                            let k = choose|k: int| s.dir_id_at(k, s.next_dir_id);
                            assert(s.dirs[k].id < s.next_dir_id);
                        }
                    }
                },
            }
        },
    }
}

/// Gives the identifier under which the store keeps the directory `path`,
/// recording the directory first where the store does not hold it yet.
/// `path` is `None` where the directory's path has no text form.
pub fn get_dir_prop_row_id(store: &mut MetadataStore, path: &Option<String>) -> (result: Result<
    i64,
    EngineError,
>)
    requires
        old(store).wf(),
    ensures
        final(store).wf(),
        (final(store)@, result) == resolve(old(store)@, text_of(*path)),
{
    match path {
        None => Err(EngineError::PathEncoding),
        Some(p) => {
            match store.find_directory(p) {
                Some(id) => Ok(id),
                None => store.insert_directory(p),
            }
        },
    }
}

} // verus!
