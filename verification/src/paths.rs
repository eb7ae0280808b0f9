//! Paths of tables, by the parts between their slashes.

use vstd::prelude::*;
use crate::subquery_literals::{parts_between, split_parts};
use crate::text::{chars_of, str_eq, string_copy, texts};

verus! {

/// A path by its parts: whether it begins at the root, and what stands between its slashes.
#[verifier::ext_equal]
pub struct PathModel {
    pub absolute: bool,
    pub parts: Seq<Seq<char>>,
}

/// The parts without dots that stand for the place where they are; a dot that a path begins
/// with stays.
pub open spec fn without_dots(parts: Seq<Seq<char>>, absolute: bool) -> Seq<Seq<char>>
    decreases parts.len(),
{
    if parts.len() == 0 {
        Seq::empty()
    } else {
        let earlier = without_dots(parts.drop_last(), absolute);
        if parts.last() == "."@ && (absolute || parts.len() > 1) {
            earlier
        } else {
            earlier.push(parts.last())
        }
    }
}

/// The parts of a path.
pub open spec fn path_of(path: Seq<char>) -> PathModel {
    let absolute = path.len() > 0 && path[0] == '/';
    PathModel { absolute, parts: without_dots(parts_between(path, '/'), absolute) }
}

/// Whether two texts are the same path.
pub open spec fn same_path(left: Seq<char>, right: Seq<char>) -> bool {
    path_of(left) == path_of(right)
}

/// The name of the file or directory that a path ends with, if it ends with one.
pub open spec fn last_name(path: Seq<char>) -> Option<Seq<char>> {
    let parts = path_of(path).parts;
    if parts.len() == 0 || parts.last() == "."@ || parts.last() == ".."@ {
        None
    } else {
        Some(parts.last())
    }
}

/// A path by its parts.
struct SplitPath {
    absolute: bool,
    parts: Vec<String>,
}

impl SplitPath {
    /// The path, as a value.
    spec fn model(self) -> PathModel {
        PathModel { absolute: self.absolute, parts: texts(self.parts@) }
    }
}

/// The parts of a path.
fn split_path(path: &str) -> (split: SplitPath)
    ensures
        split.model() == path_of(path@),
{
    let characters = chars_of(path);
    let absolute = characters.len() > 0 && characters[0] == '/';
    let all = split_parts(path, '/');
    let ghost between = texts(all@);
    let mut parts: Vec<String> = Vec::new();
    let mut index: usize = 0;
    proof {
        assert(between.take(0) =~= Seq::empty());
        assert(texts(parts@) =~= Seq::empty());
    }
    while index < all.len()
        invariant
            between == texts(all@),
            index <= all@.len(),
            texts(parts@) == without_dots(between.take(index as int), absolute),
        decreases all@.len() - index,
    {
        proof {
            assert(between.take(index + 1).drop_last() =~= between.take(index as int));
            assert(between.take(index + 1).last() == all@[index as int]@);
        }
        if !(str_eq(all[index].as_str(), ".") && (absolute || index > 0)) {
            let ghost before = parts@;
            parts.push(string_copy(&all[index]));
            assert(texts(parts@) =~= texts(before).push(all@[index as int]@));
        }
        index += 1;
    }
    assert(between.take(index as int) =~= between);
    SplitPath { absolute, parts }
}

/// Whether two texts are the same path.
pub fn paths_equal(left: &str, right: &str) -> (same: bool)
    ensures
        same == same_path(left@, right@),
{
    let first = split_path(left);
    let second = split_path(right);
    if first.absolute != second.absolute || first.parts.len() != second.parts.len() {
        assert(first.model().parts.len() == first.parts@.len());
        assert(second.model().parts.len() == second.parts@.len());
        return false;
    }
    let mut index: usize = 0;
    while index < first.parts.len()
        invariant
            first.model() == path_of(left@),
            second.model() == path_of(right@),
            first.parts@.len() == second.parts@.len(),
            index <= first.parts@.len(),
            forall|earlier: int|
                0 <= earlier < index ==> #[trigger] first.parts@[earlier]@
                    == second.parts@[earlier]@,
        decreases first.parts@.len() - index,
    {
        if !str_eq(first.parts[index].as_str(), second.parts[index].as_str()) {
            assert(first.model().parts[index as int] != second.model().parts[index as int]);
            return false;
        }
        index += 1;
    }
    assert(first.model().parts =~= second.model().parts);
    true
}

/// The name of the file or directory that a path ends with.
pub fn path_file_name(path: &str) -> (name: Option<String>)
    ensures
        match last_name(path@) {
            Some(expected) => name matches Some(name) && name@ == expected,
            None => name is None,
        },
{
    let split = split_path(path);
    assert(split.model().parts.len() == split.parts@.len());
    if split.parts.len() == 0 {
        return None;
    }
    let last = &split.parts[split.parts.len() - 1];
    assert(split.model().parts.last() == last@);
    if str_eq(last.as_str(), ".") || str_eq(last.as_str(), "..") {
        return None;
    }
    Some(string_copy(last))
}

/// Whether one of the paths is the given one.
pub open spec fn holds_path(paths: Seq<Seq<char>>, path: Seq<char>) -> bool {
    exists|index: int| 0 <= index < paths.len() && same_path(#[trigger] paths[index], path)
}

/// The paths, each as it is written first.
pub open spec fn paths_once(paths: Seq<Seq<char>>) -> Seq<Seq<char>>
    decreases paths.len(),
{
    if paths.len() == 0 {
        Seq::empty()
    } else {
        let earlier = paths_once(paths.drop_last());
        if holds_path(earlier, paths.last()) {
            earlier
        } else {
            earlier.push(paths.last())
        }
    }
}

/// Whether one of the paths is the given one.
fn contains_path(paths: &Vec<String>, path: &str) -> (found: bool)
    ensures
        found == holds_path(texts(paths@), path@),
{
    let ghost all = texts(paths@);
    let mut index: usize = 0;
    while index < paths.len()
        invariant
            all == texts(paths@),
            index <= paths@.len(),
            forall|earlier: int|
                0 <= earlier < index ==> !same_path(#[trigger] all[earlier], path@),
        decreases paths@.len() - index,
    {
        assert(all[index as int] == paths@[index as int]@);
        if paths_equal(paths[index].as_str(), path) {
            return true;
        }
        index += 1;
    }
    false
}

/// The paths, each as it is written first.
pub fn each_path_once(paths: Vec<String>) -> (once: Vec<String>)
    ensures
        texts(once@) == paths_once(texts(paths@)),
{
    let ghost all = texts(paths@);
    let ghost given = paths@;
    let mut once: Vec<String> = Vec::new();
    proof {
        assert(all.take(0) =~= Seq::empty());
        assert(texts(once@) =~= Seq::empty());
    }
    for path in rest: paths
        invariant
            rest.seq() == given,
            all == texts(given),
            texts(once@) == paths_once(all.take(rest.index())),
    {
        proof {
            let count = rest.index();
            assert(path == given[count]);
            assert(all.take(count + 1).drop_last() =~= all.take(count));
            assert(all.take(count + 1).last() == path@);
        }
        if !contains_path(&once, path.as_str()) {
            let ghost before = once@;
            let ghost added = path@;
            once.push(path);
            assert(texts(once@) =~= texts(before).push(added));
        }
    }
    assert(all.take(given.len() as int) =~= all);
    once
}

/// No path is listed twice, and every path is.
pub proof fn law_paths_once(paths: Seq<Seq<char>>)
    ensures
        forall|left: int, right: int|
            0 <= left < right < paths_once(paths).len() ==> !same_path(
                #[trigger] paths_once(paths)[left],
                #[trigger] paths_once(paths)[right],
            ),
        forall|index: int|
            0 <= index < paths.len() ==> holds_path(paths_once(paths), #[trigger] paths[index]),
    decreases paths.len(),
{
    if paths.len() > 0 {
        let before = paths.drop_last();
        law_paths_once(before);
        let earlier = paths_once(before);
        let once = paths_once(paths);
        assert forall|index: int| 0 <= index < paths.len() implies holds_path(
            once,
            #[trigger] paths[index],
        ) by {
            if index < before.len() {
                assert(before[index] == paths[index]);
                let place = choose|place: int|
                    0 <= place < earlier.len() && same_path(
                        #[trigger] earlier[place],
                        paths[index],
                    );
                assert(once[place] == earlier[place]);
            } else if !holds_path(earlier, paths.last()) {
                assert(once[earlier.len() as int] == paths[index]);
            }
        }
    }
}

} // verus!
