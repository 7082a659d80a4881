//! Paths: resolving an absolute path, component by component, into the
//! entries it passes through.

use vstd::prelude::*;
use vstd::string::*;
use crate::io;
use crate::fat32::traits::BlockDevice;
use crate::fat32::vfat::cluster::Cluster;
use crate::fat32::vfat::dir::{
    entries_of, find_in, lemma_find_is_first_match, lemma_find_own_name, looked_up, name_matches,
    root_view, Dir,
};
use crate::fat32::vfat::entry::{Entry, EntryView};
use crate::fat32::vfat::vfat::{VFat, Volume};

verus! {

/// The segments of `path` between its slashes, in order. A path of `n`
/// slashes has `n + 1` segments, some of which may be empty.
pub open spec fn split(path: Seq<char>) -> Seq<Seq<char>>
    decreases path.len(),
{
    if path.len() == 0 {
        seq![Seq::empty()]
    } else {
        let before = split(path.drop_last());
        if path.last() == '/' {
            before.push(Seq::empty())
        } else {
            before.drop_last().push(before.last().push(path.last()))
        }
    }
}

/// Whether `path` starts at the root.
pub open spec fn is_absolute(path: Seq<char>) -> bool {
    path.len() > 0 && path[0] == '/'
}

/// Whether `segment` is `.`, which stands for the directory itself.
pub open spec fn is_current(segment: Seq<char>) -> bool {
    segment.len() == 1 && segment[0] == '.'
}

/// Whether `segment` is `..`, which stands for the parent directory.
pub open spec fn is_parent(segment: Seq<char>) -> bool {
    segment.len() == 2 && segment[0] == '.' && segment[1] == '.'
}

/// Whether `segment` is a name to look up: it is not empty, and neither `.`
/// nor `..`.
pub open spec fn is_name(segment: Seq<char>) -> bool {
    segment.len() > 0 && !is_current(segment) && !is_parent(segment)
}

/// Whether the step from `stack` into `segment` reads a directory: the
/// segment is a name, and the last entry of the stack is a directory to look
/// it up in.
pub open spec fn reads_directory(stack: Seq<EntryView>, segment: Seq<char>) -> bool {
    is_name(segment) && stack.len() > 0 && stack.last().is_dir
}

/// Whether resolving `path` reads no directory: the path is refused as it
/// does not start at the root, or none of its segments is a name.
pub open spec fn reads_nothing(path: Seq<char>) -> bool {
    !is_absolute(path) || forall|i: int|
        0 <= i < split(path).len() ==> !is_name(#[trigger] split(path)[i])
}

/// The entries of the directory `dir` on `volume`, if its chain can be read
/// to its end.
pub open spec fn entries_in(volume: Volume, dir: EntryView) -> Option<Seq<EntryView>> {
    match volume.content(dir.cluster) {
        Some(data) => Some(entries_of(data)),
        None => None,
    }
}

/// One step of resolution: what the stack of entries is after the path
/// segment `segment`.
///
/// An empty segment and `.` change nothing. `..` removes the last entry, and
/// fails with `NotFound` if there is none. Any other segment is looked up,
/// without regard to case, in the last entry, which must be a directory, and
/// what is found is added; if the stack is empty, the last entry is a file
/// or nothing is found, the step fails with `NotFound`.
pub open spec fn step(volume: Volume, stack: Seq<EntryView>, segment: Seq<char>) -> Result<
    Seq<EntryView>,
    io::ErrorKind,
> {
    if segment.len() == 0 || is_current(segment) {
        Ok(stack)
    } else if is_parent(segment) {
        if stack.len() > 0 {
            Ok(stack.drop_last())
        } else {
            Err(io::ErrorKind::NotFound)
        }
    } else if stack.len() == 0 || !stack.last().is_dir {
        Err(io::ErrorKind::NotFound)
    } else {
        match looked_up(volume, stack.last().cluster, segment) {
            Ok(found) => Ok(stack.push(found)),
            Err(e) => Err(e),
        }
    }
}

/// The stack of entries after the segments `segments`, taken in order from
/// the stack `stack`; the first step that fails ends the resolution.
pub open spec fn follow(volume: Volume, stack: Seq<EntryView>, segments: Seq<Seq<char>>) -> Result<
    Seq<EntryView>,
    io::ErrorKind,
>
    decreases segments.len(),
{
    if segments.len() == 0 {
        Ok(stack)
    } else {
        match follow(volume, stack, segments.drop_last()) {
            Ok(before) => step(volume, before, segments.last()),
            Err(e) => Err(e),
        }
    }
}

/// The entries that the path `path` passes through on `volume`, from the
/// root directory at cluster `root` to the entry it names. A path that does
/// not start with a slash is refused with `InvalidInput`.
pub open spec fn resolve(volume: Volume, root: Cluster, path: Seq<char>) -> Result<
    Seq<EntryView>,
    io::ErrorKind,
> {
    if !is_absolute(path) {
        Err(io::ErrorKind::InvalidInput)
    } else {
        follow(volume, seq![root_view(root)], split(path))
    }
}

/// The entry that the path `path` names: the last of the entries that it
/// passes through. A path that leads above the root names none.
pub open spec fn opened(volume: Volume, root: Cluster, path: Seq<char>) -> Result<
    EntryView,
    io::ErrorKind,
> {
    match resolve(volume, root, path) {
        Ok(stack) => if stack.len() > 0 {
            Ok(stack.last())
        } else {
            Err(io::ErrorKind::NotFound)
        },
        Err(e) => Err(e),
    }
}

/// `path` with the name `name` added as its last component: nothing for an
/// empty name, else the name behind a slash, which is added unless `path`
/// ends with one.
pub open spec fn pushed(path: Seq<char>, name: Seq<char>) -> Seq<char> {
    if name.len() == 0 {
        path
    } else if path.len() > 0 && path.last() == '/' {
        path + name
    } else {
        path + seq!['/'] + name
    }
}

/// The canonical path of a stack of entries: the names of the entries, each
/// added to the path `/`.
pub open spec fn canonical(stack: Seq<EntryView>) -> Seq<char>
    decreases stack.len(),
{
    if stack.len() == 0 {
        seq!['/']
    } else {
        pushed(canonical(stack.drop_last()), stack.last().name())
    }
}

/// Whether `name` can stand in a path as the name of an entry: it is not
/// empty, holds no slash, and is neither `.` nor `..`.
pub open spec fn plain_name(name: Seq<char>) -> bool {
    &&& name.len() > 0
    &&& !name.contains('/')
    &&& !is_current(name)
    &&& !is_parent(name)
}

/// Whether every entry of `stack` but the first has a name that can stand in
/// a path.
pub open spec fn plain_names(stack: Seq<EntryView>) -> bool {
    forall|i: int| 1 <= i < stack.len() ==> plain_name(#[trigger] stack[i].name())
}

/// The names of the entries of `stack` but the first.
pub open spec fn names_below_root(stack: Seq<EntryView>) -> Seq<Seq<char>> {
    Seq::new((stack.len() - 1) as nat, |i: int| stack[i + 1].name())
}

/// Whether each entry of `stack` but the first is an entry of the directory
/// before it, and is what looking up some name in that directory finds.
pub open spec fn chained(volume: Volume, stack: Seq<EntryView>) -> bool {
    forall|i: int|
        1 <= i < stack.len() ==> {
            &&& (#[trigger] stack[i - 1]).is_dir
            &&& entries_in(volume, stack[i - 1]) matches Some(entries)
            &&& exists|name: Seq<char>| find_in(entries, name) == Some(stack[i])
        }
}

/// A path has at least one segment.
pub proof fn lemma_split_is_not_empty(path: Seq<char>)
    ensures
        split(path).len() >= 1,
    decreases path.len(),
{
    if path.len() > 0 {
        lemma_split_is_not_empty(path.drop_last());
    }
}

/// Text without a slash that is added to a path is added to its last
/// segment.
pub proof fn lemma_split_of_longer_segment(path: Seq<char>, more: Seq<char>)
    requires
        !more.contains('/'),
    ensures
        split(path + more) == split(path).drop_last().push(split(path).last() + more),
    decreases more.len(),
{
    lemma_split_is_not_empty(path);
    let before = split(path);
    if more.len() == 0 {
        assert(path + more =~= path);
        assert(before.last() + more =~= before.last());
        assert(before.drop_last().push(before.last()) =~= before);
    } else {
        let shorter = more.drop_last();
        assert(!shorter.contains('/')) by {
            if shorter.contains('/') {
                let i = choose|i: int| 0 <= i < shorter.len() && shorter[i] == '/';
                assert(more[i] == '/');
            }
        }
        assert(more.last() != '/') by {
            assert(more[more.len() - 1] == more.last());
        }
        lemma_split_of_longer_segment(path, shorter);
        assert((path + more).drop_last() =~= path + shorter);
        assert((path + more).last() == more.last());
        let middle = split(path + shorter);
        assert(middle.drop_last() =~= before.drop_last());
        assert(middle.last() == before.last() + shorter);
        assert((before.last() + shorter).push(more.last()) =~= before.last() + more);
    }
}

/// The path `/` has two segments, which are empty.
pub proof fn lemma_split_of_root()
    ensures
        split(seq!['/']) == seq![Seq::<char>::empty(), Seq::<char>::empty()],
{
    let root = seq!['/'];
    assert(root.drop_last() =~= Seq::<char>::empty());
    assert(split(Seq::<char>::empty()) == seq![Seq::<char>::empty()]);
    assert(root.last() == '/');
    assert(split(root) == split(root.drop_last()).push(Seq::<char>::empty()));
    assert(seq![Seq::<char>::empty()].push(Seq::<char>::empty()) =~= seq![
        Seq::<char>::empty(),
        Seq::<char>::empty(),
    ]);
}

/// A slash that is added to a path starts a new, empty segment.
pub proof fn lemma_split_after_slash(path: Seq<char>)
    ensures
        split(path + seq!['/']) == split(path).push(Seq::empty()),
{
    assert((path + seq!['/']).drop_last() =~= path);
}

/// The canonical path of a stack that starts at the root starts with a
/// slash; its segments are an empty one and the names of the entries below
/// the root, and it ends with a slash only if there are none.
pub proof fn lemma_split_of_canonical(stack: Seq<EntryView>)
    requires
        stack.len() >= 1,
        stack[0].name().len() == 0,
        plain_names(stack),
    ensures
        is_absolute(canonical(stack)),
        stack.len() == 1 ==> canonical(stack) == seq!['/'],
        stack.len() > 1 ==> canonical(stack).last() != '/' && split(canonical(stack)) == seq![
            Seq::<char>::empty(),
        ] + names_below_root(stack),
    decreases stack.len(),
{
    let shorter = stack.drop_last();
    let name = stack.last().name();
    if stack.len() == 1 {
        assert(canonical(shorter) == seq!['/']);
        assert(canonical(stack) == seq!['/']);
    } else {
        assert(plain_names(shorter)) by {
            assert forall|i: int| 1 <= i < shorter.len() implies plain_name(
                #[trigger] shorter[i].name(),
            ) by {
                assert(shorter[i] == stack[i]);
            }
        }
        assert(shorter[0] == stack[0]);
        lemma_split_of_canonical(shorter);
        assert(plain_name(stack[stack.len() - 1].name()));
        let before = canonical(shorter);
        assert(name.last() != '/') by {
            assert(name[name.len() - 1] == name.last());
        }
        if stack.len() == 2 {
            assert(before == seq!['/']);
            assert(canonical(stack) == before + name);
            lemma_split_of_longer_segment(before, name);
            lemma_split_of_root();
            assert(Seq::<char>::empty() + name =~= name);
            assert(split(canonical(stack)) =~= seq![Seq::<char>::empty()] + names_below_root(
                stack,
            ));
            assert((before + name)[0] == '/');
            assert((before + name).last() == name.last());
        } else {
            assert(canonical(stack) == before + seq!['/'] + name);
            lemma_split_after_slash(before);
            lemma_split_of_longer_segment(before + seq!['/'], name);
            assert(Seq::<char>::empty() + name =~= name);
            assert(names_below_root(shorter).push(name) =~= names_below_root(stack)) by {
                assert forall|i: int| 0 <= i < names_below_root(stack).len() implies names_below_root(
                    shorter,
                ).push(name)[i] == names_below_root(stack)[i] by {
                    if i < shorter.len() - 1 {
                        assert(shorter[i + 1] == stack[i + 1]);
                    }
                }
            }
            assert(split(canonical(stack)) =~= seq![Seq::<char>::empty()] + names_below_root(
                stack,
            ));
            assert(before[0] == '/');
            assert((before + seq!['/'] + name)[0] == '/');
            assert((before + seq!['/'] + name).last() == name.last());
        }
    }
}

/// An empty segment at the start of a path changes nothing.
pub proof fn lemma_follow_skips_empty_start(
    volume: Volume,
    stack: Seq<EntryView>,
    segments: Seq<Seq<char>>,
)
    ensures
        follow(volume, stack, seq![Seq::<char>::empty()] + segments) == follow(
            volume,
            stack,
            segments,
        ),
    decreases segments.len(),
{
    let longer = seq![Seq::<char>::empty()] + segments;
    if segments.len() == 0 {
        assert(longer.drop_last() =~= Seq::<Seq<char>>::empty());
        assert(follow(volume, stack, longer.drop_last()) == Ok::<Seq<EntryView>, io::ErrorKind>(
            stack,
        ));
    } else {
        assert(longer.drop_last() =~= seq![Seq::<char>::empty()] + segments.drop_last());
        assert(longer.last() == segments.last());
        lemma_follow_skips_empty_start(volume, stack, segments.drop_last());
    }
}

/// What a lookup finds is found again under its own name.
pub proof fn lemma_found_by_own_name(entries: Seq<EntryView>, name: Seq<char>)
    requires
        find_in(entries, name) is Some,
    ensures
        find_in(entries, find_in(entries, name).unwrap().name()) == find_in(entries, name),
{
    lemma_find_is_first_match(entries, name);
    let found = find_in(entries, name).unwrap();
    let index = choose|index: int|
        0 <= index < entries.len() && entries[index] == found && name_matches(found, name)
            && forall|earlier: int|
            0 <= earlier < index ==> !name_matches(#[trigger] entries[earlier], name);
    assert forall|earlier: int| 0 <= earlier < index implies !name_matches(
        #[trigger] entries[earlier],
        entries[index].name(),
    ) by {
        assert(!name_matches(entries[earlier], name));
    }
    lemma_find_own_name(entries, index);
}

/// Resolution gives a stack that is empty or starts at the root, and in
/// which each entry was found in the directory before it.
pub proof fn lemma_follow_is_chained(
    volume: Volume,
    root: EntryView,
    segments: Seq<Seq<char>>,
)
    requires
        follow(volume, seq![root], segments) is Ok,
    ensures
        ({
            let stack = follow(volume, seq![root], segments).unwrap();
            &&& chained(volume, stack)
            &&& stack.len() > 0 ==> stack[0] == root
        }),
    decreases segments.len(),
{
    if segments.len() > 0 {
        lemma_follow_is_chained(volume, root, segments.drop_last());
        let before = follow(volume, seq![root], segments.drop_last()).unwrap();
        let segment = segments.last();
        let stack = follow(volume, seq![root], segments).unwrap();
        assert(step(volume, before, segment) == Ok::<Seq<EntryView>, io::ErrorKind>(stack));
        if segment.len() == 0 || is_current(segment) {
        } else if is_parent(segment) {
            assert forall|i: int| 1 <= i < stack.len() implies {
                &&& (#[trigger] stack[i - 1]).is_dir
                &&& entries_in(volume, stack[i - 1]) matches Some(entries)
                &&& exists|name: Seq<char>| find_in(entries, name) == Some(stack[i])
            } by {
                assert(stack[i - 1] == before[i - 1]);
                assert(stack[i] == before[i]);
            }
        } else {
            let entries = entries_in(volume, before.last()).unwrap();
            let found = find_in(entries, segment).unwrap();
            assert(stack == before.push(found));
            assert forall|i: int| 1 <= i < stack.len() implies {
                &&& (#[trigger] stack[i - 1]).is_dir
                &&& entries_in(volume, stack[i - 1]) matches Some(entries)
                &&& exists|name: Seq<char>| find_in(entries, name) == Some(stack[i])
            } by {
                if i < before.len() {
                    assert(stack[i - 1] == before[i - 1]);
                    assert(stack[i] == before[i]);
                } else {
                    assert(stack[i - 1] == before.last());
                    assert(find_in(entries, segment) == Some(stack[i]));
                }
            }
        }
    }
}

/// Following the names of a chained stack from its first entry leads through
/// the stack again.
pub proof fn lemma_follow_own_names(volume: Volume, stack: Seq<EntryView>)
    requires
        stack.len() >= 1,
        chained(volume, stack),
        plain_names(stack),
    ensures
        follow(volume, seq![stack[0]], names_below_root(stack)) == Ok::<
            Seq<EntryView>,
            io::ErrorKind,
        >(stack),
    decreases stack.len(),
{
    let names = names_below_root(stack);
    if stack.len() == 1 {
        assert(seq![stack[0]] =~= stack);
    } else {
        let shorter = stack.drop_last();
        assert(chained(volume, shorter)) by {
            assert forall|i: int| 1 <= i < shorter.len() implies {
                &&& (#[trigger] shorter[i - 1]).is_dir
                &&& entries_in(volume, shorter[i - 1]) matches Some(entries)
                &&& exists|name: Seq<char>| find_in(entries, name) == Some(shorter[i])
            } by {
                assert(shorter[i - 1] == stack[i - 1]);
                assert(shorter[i] == stack[i]);
            }
        }
        assert(plain_names(shorter)) by {
            assert forall|i: int| 1 <= i < shorter.len() implies plain_name(
                #[trigger] shorter[i].name(),
            ) by {
                assert(shorter[i] == stack[i]);
            }
        }
        lemma_follow_own_names(volume, shorter);
        assert(names.drop_last() =~= names_below_root(shorter)) by {
            assert forall|i: int| 0 <= i < names.len() - 1 implies names.drop_last()[i]
                == names_below_root(shorter)[i] by {
                assert(shorter[i + 1] == stack[i + 1]);
            }
        }
        assert(shorter[0] == stack[0]);
        let last = stack.len() - 1;
        assert(names.last() == stack[last].name());
        assert(plain_name(stack[last].name()));
        assert(stack[last - 1].is_dir);
        assert(shorter.last() == stack[last - 1]);
        let entries = entries_in(volume, stack[last - 1]).unwrap();
        let name = choose|name: Seq<char>| find_in(entries, name) == Some(stack[last]);
        lemma_found_by_own_name(entries, name);
        assert(shorter.push(stack[last]) =~= stack);
    }
}

/// Making a path canonical twice gives what making it canonical once gives:
/// the canonical path of a path that resolves resolves too, and its
/// canonical path is itself. The canonical path starts at the root, and
/// unless the path leads above the root, it passes through the same entries
/// and names the same entry as the path.
///
/// This holds where the names of the entries that the path passes through
/// can stand in a path: a name with a slash in it would be taken apart when
/// the canonical path is read again.
pub proof fn lemma_canonicalize_is_idempotent(volume: Volume, root: Cluster, path: Seq<char>)
    requires
        resolve(volume, root, path) is Ok,
        plain_names(resolve(volume, root, path).unwrap()),
    ensures
        resolve(volume, root, canonical(resolve(volume, root, path).unwrap())) is Ok,
        canonical(resolve(volume, root, canonical(resolve(volume, root, path).unwrap())).unwrap())
            == canonical(resolve(volume, root, path).unwrap()),
        is_absolute(canonical(resolve(volume, root, path).unwrap())),
        resolve(volume, root, path).unwrap().len() > 0 ==> {
            &&& resolve(volume, root, canonical(resolve(volume, root, path).unwrap()))
                == resolve(volume, root, path)
            &&& opened(volume, root, canonical(resolve(volume, root, path).unwrap())) == opened(
                volume,
                root,
                path,
            )
        },
{
    let stack = resolve(volume, root, path).unwrap();
    let top = root_view(root);
    lemma_follow_is_chained(volume, top, split(path));
    if stack.len() == 1 {
        assert(stack =~= seq![top]);
    }
    if stack.len() == 0 {
        assert(canonical(stack) == seq!['/']);
    } else {
        lemma_split_of_canonical(stack);
    }
    let text = canonical(stack);
    if stack.len() <= 1 {
        // The canonical path is `/`, which leads to the root.
        assert(text == seq!['/']);
        lemma_split_of_root();
        lemma_follow_skips_empty_start(volume, seq![top], seq![Seq::<char>::empty()]);
        assert(seq![Seq::<char>::empty()] + seq![Seq::<char>::empty()] =~= split(text));
        let one = seq![Seq::<char>::empty()];
        assert(one.drop_last() =~= Seq::<Seq<char>>::empty());
        assert(follow(volume, seq![top], one.drop_last()) == Ok::<Seq<EntryView>, io::ErrorKind>(
            seq![top],
        ));
        assert(step(volume, seq![top], one.last()) == Ok::<Seq<EntryView>, io::ErrorKind>(
            seq![top],
        ));
        assert(follow(volume, seq![top], one) == Ok::<Seq<EntryView>, io::ErrorKind>(seq![top]));
        let again = resolve(volume, root, text).unwrap();
        assert(text[0] == '/');
        assert(again == seq![top]);
        assert(again.drop_last() =~= Seq::<EntryView>::empty());
        assert(canonical(again.drop_last()) == seq!['/']);
        assert(again.last().name() =~= Seq::<char>::empty());
        assert(canonical(again) == seq!['/']);
    } else {
        lemma_follow_skips_empty_start(volume, seq![top], names_below_root(stack));
        lemma_follow_own_names(volume, stack);
    }
}

/// The segments of the front of a path, but for the last of them, which may
/// go on, are the first segments of the path.
pub proof fn lemma_split_of_front(path: Seq<char>, front: int)
    requires
        0 <= front <= path.len(),
    ensures
        split(path.subrange(0, front)).len() <= split(path).len(),
        split(path.subrange(0, front)).drop_last() == split(path).subrange(
            0,
            split(path.subrange(0, front)).len() - 1,
        ),
    decreases path.len() - front,
{
    lemma_split_is_not_empty(path.subrange(0, front));
    if front == path.len() {
        assert(path.subrange(0, front) =~= path);
        assert(split(path).drop_last() =~= split(path).subrange(0, split(path).len() - 1));
    } else {
        lemma_split_of_front(path, front + 1);
        let shorter = split(path.subrange(0, front));
        let longer = split(path.subrange(0, front + 1));
        assert(path.subrange(0, front + 1).drop_last() =~= path.subrange(0, front));
        lemma_split_is_not_empty(path.subrange(0, front + 1));
        if path[front] == '/' {
            assert(longer == shorter.push(Seq::empty()));
            assert(longer.drop_last() =~= shorter);
            assert(shorter.drop_last() =~= split(path).subrange(0, shorter.len() - 1)) by {
                assert(shorter =~= split(path).subrange(0, longer.len() - 1));
            }
        } else {
            assert(longer.drop_last() =~= shorter.drop_last());
        }
    }
}

/// Where following the first segments of a path fails, following all of
/// them fails in the same way.
pub proof fn lemma_follow_fails_later(
    volume: Volume,
    stack: Seq<EntryView>,
    segments: Seq<Seq<char>>,
    front: int,
    kind: io::ErrorKind,
)
    requires
        0 <= front <= segments.len(),
        follow(volume, stack, segments.subrange(0, front)) == Err::<Seq<EntryView>, io::ErrorKind>(
            kind,
        ),
    ensures
        follow(volume, stack, segments) == Err::<Seq<EntryView>, io::ErrorKind>(kind),
    decreases segments.len() - front,
{
    if front == segments.len() {
        assert(segments.subrange(0, front) =~= segments);
    } else {
        let next = segments.subrange(0, front + 1);
        assert(next.drop_last() =~= segments.subrange(0, front));
        lemma_follow_fails_later(volume, stack, segments, front + 1, kind);
    }
}

/// Where following the segments that are complete in the front of a path
/// fails, following the segments of the path fails in the same way.
pub proof fn lemma_follow_fails_on(
    volume: Volume,
    stack: Seq<EntryView>,
    path: Seq<char>,
    front: int,
    kind: io::ErrorKind,
)
    requires
        0 <= front <= path.len(),
        follow(volume, stack, split(path.subrange(0, front)).drop_last()) == Err::<
            Seq<EntryView>,
            io::ErrorKind,
        >(kind),
    ensures
        follow(volume, stack, split(path)) == Err::<Seq<EntryView>, io::ErrorKind>(kind),
{
    lemma_split_of_front(path, front);
    lemma_split_is_not_empty(path.subrange(0, front));
    lemma_follow_fails_later(
        volume,
        stack,
        split(path),
        split(path.subrange(0, front)).len() - 1,
        kind,
    );
}

/// A slash ends the segment it follows and begins an empty one.
pub proof fn lemma_split_at_slash(path: Seq<char>, start: int, at: int, done: Seq<Seq<char>>)
    requires
        0 <= start <= at < path.len(),
        path[at] == '/',
        split(path.subrange(0, at)) == done.push(path.subrange(start, at)),
    ensures
        split(path.subrange(0, at + 1)) == done.push(path.subrange(start, at)).push(
            path.subrange(at + 1, at + 1),
        ),
        split(path.subrange(0, at + 1)).drop_last() == done.push(path.subrange(start, at)),
{
    let front = path.subrange(0, at + 1);
    assert(front.drop_last() =~= path.subrange(0, at));
    assert(front.last() == '/');
    assert(path.subrange(at + 1, at + 1) =~= Seq::<char>::empty());
    let finished = done.push(path.subrange(start, at));
    assert(finished.push(Seq::<char>::empty()).drop_last() =~= finished);
}

/// The segment that a slash ends is a segment of the whole path.
pub proof fn lemma_segment_of_path(path: Seq<char>, start: int, at: int, done: Seq<Seq<char>>)
    requires
        0 <= start <= at < path.len(),
        path[at] == '/',
        split(path.subrange(0, at)) == done.push(path.subrange(start, at)),
    ensures
        done.len() < split(path).len(),
        split(path)[done.len() as int] == path.subrange(start, at),
{
    lemma_split_at_slash(path, start, at, done);
    lemma_split_of_front(path, at + 1);
    let front = split(path.subrange(0, at + 1));
    let finished = done.push(path.subrange(start, at));
    assert(front.len() == done.len() + 2);
    assert(front.drop_last()[done.len() as int] == finished[done.len() as int]);
}

/// Any other character lengthens the last segment.
pub proof fn lemma_split_in_segment(path: Seq<char>, start: int, at: int, done: Seq<Seq<char>>)
    requires
        0 <= start <= at < path.len(),
        path[at] != '/',
        split(path.subrange(0, at)) == done.push(path.subrange(start, at)),
    ensures
        split(path.subrange(0, at + 1)) == done.push(path.subrange(start, at + 1)),
{
    let front = path.subrange(0, at + 1);
    assert(front.drop_last() =~= path.subrange(0, at));
    assert(front.last() == path[at]);
    assert(path.subrange(start, at + 1) =~= path.subrange(start, at).push(path[at]));
    assert(done.push(path.subrange(start, at)).drop_last() =~= done);
}

/// Following one segment more is one step from where the others led.
pub proof fn lemma_follow_one_more(
    volume: Volume,
    stack: Seq<EntryView>,
    done: Seq<Seq<char>>,
    segment: Seq<char>,
)
    ensures
        follow(volume, stack, done.push(segment)) == match follow(volume, stack, done) {
            Ok(before) => step(volume, before, segment),
            Err(e) => Err(e),
        },
{
    assert(done.push(segment).drop_last() =~= done);
    assert(done.push(segment).last() == segment);
}

/// What each of `entries` is.
pub open spec fn views(entries: Seq<Entry>) -> Seq<EntryView> {
    Seq::new(entries.len(), |i: int| entries[i]@)
}

/// Whether every file among `entries` is positioned at its start.
pub open spec fn all_fresh(entries: Seq<Entry>, cluster_size: int) -> bool {
    forall|i: int|
        0 <= i < entries.len() ==> ((#[trigger] entries[i]) matches Entry::File(file)
            ==> file.is_fresh(cluster_size as u32))
}

/// Adds `name` to `path` as its last component.
pub fn push_component(path: &mut String, name: &str)
    ensures
        final(path)@ == pushed(old(path)@, name@),
{
    let name_len = name.unicode_len();
    if name_len == 0 {
        return ;
    }
    let len = path.as_str().unicode_len();
    if !(len > 0 && path.as_str().get_char(len - 1) == '/') {
        path.push('/');
    }
    path.append(name);
}

impl<D: BlockDevice> VFat<D> {
    /// Takes one step of resolution: changes `entries` as the path segment
    /// `segment` asks.
    fn enter(&mut self, entries: &mut Vec<Entry>, segment: &str) -> (r: io::Result<()>)
        requires
            old(self).wf(),
            all_fresh(old(entries)@, old(self)@.cluster_size),
        ensures
            final(self).wf(),
            final(self)@ == old(self)@,
            final(self).geometry() == old(self).geometry(),
            r is Ok ==> step(old(self)@, views(old(entries)@), segment@) == Ok::<
                Seq<EntryView>,
                io::ErrorKind,
            >(views(final(entries)@)),
            r is Ok ==> all_fresh(final(entries)@, old(self)@.cluster_size),
            r matches Err(e) ==> e.is_device() || step(
                old(self)@,
                views(old(entries)@),
                segment@,
            ) == Err::<Seq<EntryView>, io::ErrorKind>(e.kind()),
            !reads_directory(views(old(entries)@), segment@) ==> !(r matches Err(e)
                && e.is_device()),
    {
        let len = segment.unicode_len();
        if len == 0 || (len == 1 && segment.get_char(0) == '.') {
            return Ok(());
        }
        if len == 2 && segment.get_char(0) == '.' && segment.get_char(1) == '.' {
            return match entries.pop() {
                Some(_) => {
                    assert(views(entries@) =~= views(old(entries)@).drop_last());
                    Ok(())
                },
                None => Err(io::Error::new(io::ErrorKind::NotFound, "no parent directory")),
            };
        }
        assert(is_name(segment@));
        if entries.len() == 0 {
            return Err(io::Error::new(io::ErrorKind::NotFound, "file not found"));
        }
        proof {
            assert(views(entries@).last() == entries@.last()@);
            entries@.last().lemma_kind();
        }
        let found = match entries[entries.len() - 1].as_dir() {
            Some(dir) => {
                proof {
                    dir.lemma_is_dir();
                }
                dir.find(self, segment)?
            },
            None => {
                return Err(io::Error::new(io::ErrorKind::NotFound, "file not found"));
            },
        };
        proof {
            self.lemma_sizes();
            assert(views(old(entries)@).last() == old(entries)@.last()@);
        }
        entries.push(found);
        assert(views(entries@) =~= views(old(entries)@).push(found@));
        Ok(())
    }

    /// Returns the entries that the absolute path `path` passes through,
    /// from the root directory to the entry that the path names.
    ///
    /// The path is taken segment by segment: `.` and empty segments are
    /// skipped, `..` goes back to the parent, any other name is looked up
    /// without regard to case in the directory reached so far. A path that
    /// does not start with `/` is refused with `InvalidInput`.
    ///
    /// Only the lookup of a name reads the disk. A path that is refused, or
    /// none of whose segments is a name, never fails with a failure of the
    /// device: the result is what the resolution of the path says, so `/`
    /// gives the root directory.
    pub fn get_entries(&mut self, path: &str) -> (r: io::Result<Vec<Entry>>)
        requires
            old(self).wf(),
        ensures
            final(self).wf(),
            final(self)@ == old(self)@,
            final(self).geometry() == old(self).geometry(),
            !is_absolute(path@) ==> (r matches Err(e) && e.kind() == io::ErrorKind::InvalidInput
                && !e.is_device()),
            reads_nothing(path@) ==> !(r matches Err(e) && e.is_device()),
            match r {
                Ok(entries) => {
                    &&& resolve(old(self)@, old(self).geometry().root_dir_cluster, path@) == Ok::<
                        Seq<EntryView>,
                        io::ErrorKind,
                    >(views(entries@))
                    &&& all_fresh(entries@, old(self)@.cluster_size)
                },
                Err(e) => e.is_device() || resolve(
                    old(self)@,
                    old(self).geometry().root_dir_cluster,
                    path@,
                ) == Err::<Seq<EntryView>, io::ErrorKind>(e.kind()),
            },
    {
        let len = path.unicode_len();
        if len == 0 || path.get_char(0) != '/' {
            return Err(io::Error::new(io::ErrorKind::InvalidInput, "path must be absolute"));
        }
        let ghost volume = self@;
        let ghost root = self.geometry().root_dir_cluster;
        let mut entries: Vec<Entry> = Vec::new();
        entries.push(Entry::Dir(Dir::new_root(self.root_dir_cluster())));
        assert(views(entries@) =~= seq![root_view(root)]);
        let ghost mut done: Seq<Seq<char>> = Seq::empty();
        let mut start: usize = 0;
        let mut i: usize = 0;
        assert(path@.subrange(0, 0) =~= Seq::<char>::empty());
        assert(done.push(path@.subrange(0, 0)) =~= split(path@.subrange(0, 0)));
        while i < len
            invariant
                self.wf(),
                self@ == volume,
                self@ == old(self)@,
                self.geometry() == old(self).geometry(),
                root == old(self).geometry().root_dir_cluster,
                len == path@.len(),
                start <= i <= len,
                is_absolute(path@),
                split(path@.subrange(0, i as int)) == done.push(
                    path@.subrange(start as int, i as int),
                ),
                follow(volume, seq![root_view(root)], done) == Ok::<Seq<EntryView>, io::ErrorKind>(
                    views(entries@),
                ),
                all_fresh(entries@, volume.cluster_size),
            decreases len - i,
        {
            if path.get_char(i) == '/' {
                let segment = path.substring_char(start, i);
                let ghost reached = views(entries@);
                proof {
                    lemma_segment_of_path(path@, start as int, i as int, done);
                    lemma_split_at_slash(path@, start as int, i as int, done);
                    lemma_follow_one_more(volume, seq![root_view(root)], done, segment@);
                }
                match self.enter(&mut entries, segment) {
                    Ok(()) => {},
                    Err(e) => {
                        proof {
                            if !e.is_device() {
                                lemma_follow_fails_on(
                                    volume,
                                    seq![root_view(root)],
                                    path@,
                                    i + 1,
                                    e.kind(),
                                );
                            }
                        }
                        return Err(e);
                    },
                }
                proof {
                    done = done.push(segment@);
                }
                start = i + 1;
            } else {
                proof {
                    lemma_split_in_segment(path@, start as int, i as int, done);
                }
            }
            i += 1;
        }
        let segment = path.substring_char(start, len);
        proof {
            assert(path@.subrange(0, len as int) =~= path@);
            assert(split(path@)[done.len() as int] == segment@);
            lemma_follow_one_more(volume, seq![root_view(root)], done, segment@);
        }
        self.enter(&mut entries, segment)?;
        Ok(entries)
    }

    /// Opens the entry at `path`: the last of the entries that the path
    /// passes through. A path that goes above the root names no entry and
    /// fails with `NotFound`.
    ///
    /// As with `get_entries`, a path that is refused or none of whose
    /// segments is a name never fails with a failure of the device.
    pub fn open(&mut self, path: &str) -> (r: io::Result<Entry>)
        requires
            old(self).wf(),
        ensures
            final(self).wf(),
            final(self)@ == old(self)@,
            final(self).geometry() == old(self).geometry(),
            !is_absolute(path@) ==> (r matches Err(e) && e.kind() == io::ErrorKind::InvalidInput
                && !e.is_device()),
            reads_nothing(path@) ==> !(r matches Err(e) && e.is_device()),
            match r {
                Ok(entry) => {
                    &&& resolve(
                        old(self)@,
                        old(self).geometry().root_dir_cluster,
                        path@,
                    ) matches Ok(stack)
                    &&& stack.len() > 0
                    &&& entry@ == stack.last()
                    &&& entry matches Entry::File(file) ==> file.is_fresh(
                        old(self)@.cluster_size as u32,
                    )
                },
                Err(e) => e.is_device() || opened(
                    old(self)@,
                    old(self).geometry().root_dir_cluster,
                    path@,
                ) == Err::<EntryView, io::ErrorKind>(e.kind()),
            },
    {
        let mut entries = self.get_entries(path)?;
        let ghost all = entries@;
        match entries.pop() {
            Some(entry) => {
                assert(views(all).last() == all.last()@);
                Ok(entry)
            },
            None => Err(io::Error::new(io::ErrorKind::NotFound, "file not found")),
        }
    }

    /// Returns the canonical form of `path`: the names of the entries that
    /// the path passes through, each behind a slash.
    ///
    /// As with `get_entries`, a path that is refused or none of whose
    /// segments is a name never fails with a failure of the device.
    pub fn canonicalize(&mut self, path: &str) -> (r: io::Result<String>)
        requires
            old(self).wf(),
        ensures
            final(self).wf(),
            final(self)@ == old(self)@,
            final(self).geometry() == old(self).geometry(),
            !is_absolute(path@) ==> (r matches Err(e) && e.kind() == io::ErrorKind::InvalidInput
                && !e.is_device()),
            reads_nothing(path@) ==> !(r matches Err(e) && e.is_device()),
            match r {
                Ok(text) => {
                    &&& resolve(
                        old(self)@,
                        old(self).geometry().root_dir_cluster,
                        path@,
                    ) matches Ok(stack)
                    &&& text@ == canonical(stack)
                },
                Err(e) => e.is_device() || resolve(
                    old(self)@,
                    old(self).geometry().root_dir_cluster,
                    path@,
                ) == Err::<Seq<EntryView>, io::ErrorKind>(e.kind()),
            },
    {
        let entries = self.get_entries(path)?;
        Ok(canonical_path(&entries))
    }
}

/// The canonical path of the entries `entries`.
pub fn canonical_path(entries: &Vec<Entry>) -> (text: String)
    ensures
        text@ == canonical(views(entries@)),
{
    let mut text = String::new();
    text.push('/');
    assert(text@ =~= seq!['/']);
    let mut i: usize = 0;
    assert(views(entries@).subrange(0, 0) =~= Seq::<EntryView>::empty());
    while i < entries.len()
        invariant
            i <= entries@.len(),
            text@ == canonical(views(entries@).subrange(0, i as int)),
        decreases entries@.len() - i,
    {
        proof {
            let next = views(entries@).subrange(0, i + 1);
            assert(next.drop_last() =~= views(entries@).subrange(0, i as int));
            assert(next.last() == entries@[i as int]@);
        }
        push_component(&mut text, entries[i].name());
        i += 1;
    }
    assert(views(entries@).subrange(0, entries@.len() as int) =~= views(entries@));
    text
}

} // verus!
