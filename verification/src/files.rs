//! Files of market data: their names and their order.
use std::path::Path;
use vstd::prelude::*;
use vstd::seq_lib::to_multiset_build;

verus! {

/// A file of market data.
pub struct SourceFile {
    /// The path, as it is shown in messages.
    pub path: String,
    /// The text of the file, which is empty before it is read.
    pub contents: String,
}

/// The mathematical model of a [`SourceFile`].
#[verifier::ext_equal]
pub struct FileModel {
    pub path: Seq<char>,
    pub contents: Seq<char>,
}

impl View for SourceFile {
    type V = FileModel;

    open spec fn view(&self) -> FileModel {
        FileModel { path: self.path@, contents: self.contents@ }
    }
}

/// The models of a list of files.
pub open spec fn file_models(files: Seq<SourceFile>) -> Seq<FileModel> {
    files.map_values(|file: SourceFile| file@)
}

// Names

/// What `std::path::Path::file_name` gives for a path: its last component, if it has one.
pub uninterp spec fn last_component(path: Seq<char>) -> Option<Seq<char>>;

/// Take the last component of a path with `std::path::Path::file_name`.
///
/// It is a function of the path alone on the platform for which the program is built, whose
/// rules part a path into components. What it is for a given path is left unsaid.
#[verifier::external_body]
fn read_last_component(path: &str) -> (result: Option<String>)
    ensures
        match result {
            Some(name) => last_component(path@) == Some(name@),
            None => last_component(path@) is None,
        },
{
    Path::new(path).file_name().map(|name| name.to_string_lossy().into_owned())
}

/// The name by which a file is shown: the last component of its path, or else the whole path.
pub open spec fn name_from(component: Option<Seq<char>>, path: Seq<char>) -> Seq<char> {
    match component {
        Some(name) => name,
        None => path,
    }
}

/// Choose the name by which a file is shown.
pub fn choose_name(component: Option<String>, path: &str) -> (result: String)
    ensures
        result@ == name_from(
            match component {
                Some(name) => Some(name@),
                None => None,
            },
            path@,
        ),
{
    match component {
        Some(name) => name,
        None => path.to_owned(),
    }
}

/// The name by which the file at a path is shown.
pub open spec fn file_name_of(path: Seq<char>) -> Seq<char> {
    name_from(last_component(path), path)
}

/// Name the file at a path as it is shown in logs.
pub fn file_name(path: &str) -> (result: String)
    ensures
        result@ == file_name_of(path@),
{
    choose_name(read_last_component(path), path)
}

// Order

/// Whether `std::path::Path` orders a path before another.
pub uninterp spec fn path_precedes(left: Seq<char>, right: Seq<char>) -> bool;

/// Compare two paths with `<` on `std::path::Path`.
///
/// The answer is a function of the two paths alone on the platform for which the program is
/// built, whose rules part a path into components. As `Ord` asks of it, the order is total: at
/// most one of two paths precedes the other, and where one does, any third path is preceded by it
/// or precedes the other. Which of two given paths comes first is left unsaid.
#[verifier::external_body]
fn precedes(left: &str, right: &str) -> (result: bool)
    ensures
        result == path_precedes(left@, right@),
        result ==> !path_precedes(right@, left@),
        forall|third: Seq<char>|
            #![trigger path_precedes(left@, third)]
            #![trigger path_precedes(third, right@)]
            result ==> path_precedes(left@, third) || path_precedes(third, right@),
{
    Path::new(left) < Path::new(right)
}

/// Whether a path, if it precedes another, stands before it in a total order: the other does not
/// precede it, and every third path comes after the first or before the second.
pub open spec fn totally_ordered(left: Seq<char>, right: Seq<char>) -> bool {
    path_precedes(left, right) ==> {
        &&& !path_precedes(right, left)
        &&& forall|third: Seq<char>|
            #![trigger path_precedes(left, third)]
            #![trigger path_precedes(third, right)]
            path_precedes(left, third) || path_precedes(third, right)
    }
}

/// Whether no file stands behind one that its path precedes.
pub open spec fn in_path_order(files: Seq<FileModel>) -> bool {
    forall|earlier: int, later: int|
        0 <= earlier < later < files.len() ==> !path_precedes(
            (#[trigger] files[later]).path,
            (#[trigger] files[earlier]).path,
        )
}

/// Whether neither of two paths precedes the other.
pub open spec fn tied(left: Seq<char>, right: Seq<char>) -> bool {
    !path_precedes(left, right) && !path_precedes(right, left)
}

/// The files whose paths are tied with a path, in their order.
pub open spec fn tied_with(files: Seq<FileModel>, path: Seq<char>) -> Seq<FileModel> {
    files.filter(|file: FileModel| tied(path, file.path))
}

/// Whether a list holds the same files as another, but in the order of their paths. Files that
/// are tied keep their order.
pub open spec fn is_ordering(ordered: Seq<FileModel>, files: Seq<FileModel>) -> bool {
    &&& in_path_order(ordered)
    &&& ordered.to_multiset() == files.to_multiset()
    &&& forall|path: Seq<char>| #[trigger] tied_with(ordered, path) == tied_with(files, path)
}

/// The place of a new item among ordered ones, given whether it precedes each of them: behind the
/// last that it does not precede.
pub fn insertion_point(precedes: &Vec<bool>) -> (place: usize)
    ensures
        place <= precedes@.len(),
        place > 0 ==> !precedes@[place - 1],
        forall|index: int| place <= index < precedes@.len() ==> #[trigger] precedes@[index],
{
    let mut place: usize = precedes.len();
    while place > 0 && precedes[place - 1]
        invariant
            place <= precedes@.len(),
            forall|index: int| place <= index < precedes@.len() ==> #[trigger] precedes@[index],
        decreases place,
    {
        place = place - 1;
    }
    place
}

/// An item that is inserted behind every item that a filter keeps comes last in the filtered
/// list.
proof fn lemma_filter_of_insertion<A>(
    items: Seq<A>,
    place: int,
    item: A,
    keeps: spec_fn(A) -> bool,
)
    requires
        0 <= place <= items.len(),
        keeps(item) ==> forall|index: int|
            place <= index < items.len() ==> !keeps(#[trigger] items[index]),
    ensures
        items.insert(place, item).filter(keeps) == items.push(item).filter(keeps),
    decreases items.len(),
{
    reveal(Seq::filter);
    let inserted = items.insert(place, item);
    assert(items.push(item).drop_last() =~= items);
    if place == items.len() {
        assert(inserted =~= items.push(item));
    } else {
        let rest = items.drop_last();
        assert(inserted.drop_last() =~= rest.insert(place, item));
        assert(inserted.last() == items.last());
        assert forall|index: int| place <= index < rest.len() implies #[trigger] rest[index]
            == items[index] by {}
        lemma_filter_of_insertion(rest, place, item, keeps);
        assert(rest.push(item).drop_last() =~= rest);
        let kept = items.filter(keeps);
        assert(kept == if keeps(items.last()) {
            rest.filter(keeps).push(items.last())
        } else {
            rest.filter(keeps)
        });
        assert(keeps(item) ==> !keeps(items[items.len() - 1]));
    }
}

proof fn lemma_multiset_of_insertion<A>(items: Seq<A>, place: int, item: A)
    requires
        0 <= place <= items.len(),
    ensures
        items.insert(place, item).to_multiset() == items.to_multiset().insert(item),
    decreases items.len(),
{
    let inserted = items.insert(place, item);
    if place == items.len() {
        assert(inserted =~= items.push(item));
        to_multiset_build(items, item);
    } else {
        let rest = items.drop_last();
        lemma_multiset_of_insertion(rest, place, item);
        assert(inserted =~= rest.insert(place, item).push(items.last()));
        assert(items =~= rest.push(items.last()));
        to_multiset_build(rest.insert(place, item), items.last());
        to_multiset_build(rest, items.last());
        assert(rest.to_multiset().insert(item).insert(items.last())
            =~= rest.to_multiset().insert(items.last()).insert(item));
    }
}

/// Insert a file among ordered ones.
fn insert_file(ordered: &mut Vec<SourceFile>, file: SourceFile)
    requires
        in_path_order(file_models(old(ordered)@)),
    ensures
        in_path_order(file_models(final(ordered)@)),
        file_models(final(ordered)@).to_multiset() == file_models(
            old(ordered)@,
        ).to_multiset().insert(file@),
        forall|path: Seq<char>| #[trigger]
            tied_with(file_models(final(ordered)@), path) == tied_with(
                file_models(old(ordered)@).push(file@),
                path,
            ),
{
    let ghost models = file_models(ordered@);
    let ghost path = file@.path;
    let mut comparisons: Vec<bool> = Vec::new();
    for index in 0..ordered.len()
        invariant
            ordered@ == old(ordered)@,
            models == file_models(ordered@),
            path == file@.path,
            comparisons@.len() == index,
            forall|earlier: int|
                0 <= earlier < index ==> (#[trigger] comparisons@[earlier]) == path_precedes(
                    path,
                    models[earlier].path,
                ),
            forall|earlier: int|
                #![trigger models[earlier]]
                0 <= earlier < index ==> totally_ordered(path, models[earlier].path),
    {
        assert(models[index as int] == ordered@[index as int]@);
        comparisons.push(precedes(&file.path, &ordered[index].path));
    }
    let place: usize = insertion_point(&comparisons);
    let ghost model = file@;
    ordered.insert(place, file);
    proof {
        let after = file_models(ordered@);
        assert(after =~= models.insert(place as int, model));
        lemma_multiset_of_insertion(models, place as int, model);
        assert forall|earlier: int, later: int|
            0 <= earlier < later < after.len() implies !path_precedes(
            (#[trigger] after[later]).path,
            (#[trigger] after[earlier]).path,
        ) by {
            if later == place {
                // What is in front of the last file that the new one does not precede is not
                // behind the new one either.
                assert(after[earlier] == models[earlier]);
                assert(!comparisons@[place - 1]);
                assert(!path_precedes(path, models[place - 1].path));
                if earlier < place - 1 {
                    assert(!path_precedes(models[place - 1].path, models[earlier].path));
                    assert(totally_ordered(path, models[earlier].path));
                }
            } else if earlier == place {
                assert(after[later] == models[later - 1]);
                assert(comparisons@[later - 1]);
            } else {
                let left = if earlier < place {
                    earlier
                } else {
                    earlier - 1
                };
                let right = if later < place {
                    later
                } else {
                    later - 1
                };
                assert(after[earlier] == models[left] && after[later] == models[right]);
            }
        }
        assert forall|other: Seq<char>| #[trigger] tied_with(after, other) == tied_with(
            models.push(model),
            other,
        ) by {
            let keeps = |file: FileModel| tied(other, file.path);
            assert(keeps(model) ==> forall|index: int|
                place <= index < models.len() ==> !keeps(#[trigger] models[index])) by {
                if keeps(model) {
                    assert forall|index: int| place <= index < models.len() implies !keeps(
                        #[trigger] models[index],
                    ) by {
                        assert(comparisons@[index]);
                        assert(totally_ordered(path, models[index].path));
                        assert(path_precedes(path, other) || path_precedes(
                            other,
                            models[index].path,
                        ));
                    }
                }
            }
            lemma_filter_of_insertion(models, place as int, model, keeps);
        }
    }
}

/// Put files into the order of their paths, so that every strategy receives its data in
/// chronological order.
pub fn order_files(files: Vec<SourceFile>) -> (result: Vec<SourceFile>)
    ensures
        is_ordering(file_models(result@), file_models(files@)),
{
    let ghost originals = files@;
    let ghost models = file_models(files@);
    let mut ordered: Vec<SourceFile> = Vec::new();
    assert(file_models(ordered@) =~= models.take(0));
    for file in iterator: files
        invariant
            iterator.seq() == originals,
            models == file_models(originals),
            is_ordering(file_models(ordered@), models.take(iterator.index() as int)),
    {
        let ghost index = iterator.index() as int;
        let ghost before = file_models(ordered@);
        let ghost model = file@;
        insert_file(&mut ordered, file);
        proof {
            let taken = models.take(index);
            let after = file_models(ordered@);
            assert(models.take(index + 1) =~= taken.push(model));
            to_multiset_build(taken, model);
            assert forall|path: Seq<char>| #[trigger] tied_with(after, path) == tied_with(
                models.take(index + 1),
                path,
            ) by {
                reveal(Seq::filter);
                assert(tied_with(before, path) == tied_with(taken, path));
                assert(before.push(model).drop_last() =~= before);
                assert(taken.push(model).drop_last() =~= taken);
            }
        }
    }
    assert(models.take(models.len() as int) =~= models);
    ordered
}

} // verus!
