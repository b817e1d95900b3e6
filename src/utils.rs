use crate::sequence::{is_image_file_name, is_image_name};
use vstd::prelude::*;

verus! {

/// Whether `name` is one of the names in `exclude`.
pub open spec fn is_excluded(name: Seq<char>, exclude: Seq<String>) -> bool {
    exists|j: int| 0 <= j < exclude.len() && (#[trigger] exclude[j])@ == name
}

/// Whether a file of a directory is an image to work on.
pub open spec fn is_collected(name: Seq<char>, exclude: Seq<String>) -> bool {
    is_image_name(name) && !is_excluded(name, exclude)
}

/// The names, in their order, of the image files that are not excluded.
pub open spec fn collected(names: Seq<String>, exclude: Seq<String>) -> Seq<String>
    decreases names.len(),
{
    if names.len() == 0 {
        Seq::empty()
    } else {
        let prev = collected(names.drop_last(), exclude);
        if is_collected(names.last()@, exclude) {
            prev.push(names.last())
        } else {
            prev
        }
    }
}

/// Whether `name` is among `exclude`.
pub fn is_excluded_name(name: &String, exclude: &Vec<String>) -> (r: bool)
    ensures
        r == is_excluded(name@, exclude@),
{
    let mut j: usize = 0;
    while j < exclude.len()
        invariant
            j <= exclude@.len(),
            forall|k: int| 0 <= k < j ==> (#[trigger] exclude@[k])@ != name@,
        decreases exclude@.len() - j,
    {
        if exclude[j] == *name {
            return true;
        }
        j += 1;
    }
    false
}

/// Keeps, in order, the names of a directory's files that end in `.jpg` or
/// `.png` and are not excluded.
pub fn collect_images(names: &Vec<String>, exclude: &Vec<String>) -> (r: Vec<String>)
    ensures
        r@ == collected(names@, exclude@),
{
    let mut r: Vec<String> = Vec::new();
    let mut i: usize = 0;
    while i < names.len()
        invariant
            i <= names@.len(),
            r@ == collected(names@.take(i as int), exclude@),
        decreases names@.len() - i,
    {
        assert(names@.take(i + 1).drop_last() =~= names@.take(i as int));
        if is_image_file_name(names[i].as_str()) && !is_excluded_name(&names[i], exclude) {
            r.push(names[i].clone());
        }
        i += 1;
    }
    assert(names@.take(names@.len() as int) =~= names@);
    r
}

} // verus!
