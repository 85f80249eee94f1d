//! Where a replay file may lie: below the replay root, named by a relative
//! path without `..`, and reached through directories that are not
//! symbolic links.
//!
//! A stored replay path may start with `replays/`, which names the root
//! itself. Paths are split on `/` as `std::path` does on Unix: empty
//! segments and `.` name no entry, and a leading `/` makes a path absolute.

use vstd::prelude::*;

use crate::responses::StorageError;
use crate::text::{char_views, chars_of, chars_start_with, split_chars, split_on, starts_with, string_from_chars};

verus! {

/// The stored path `s` relative to the replay root.
pub open spec fn stripped_replay_path(s: Seq<char>) -> Seq<char> {
    if starts_with(s, "replays/"@) {
        s.skip(8)
    } else {
        s
    }
}

/// Whether a path segment names a directory entry: it is neither empty
/// nor `.`.
pub open spec fn normal_segment(p: Seq<char>) -> bool {
    p.len() > 0 && p != "."@
}

/// Whether the relative path `rel` stays below the root: it is not empty,
/// not absolute, and has no `..` segment.
pub open spec fn replay_path_safe(rel: Seq<char>) -> bool {
    rel.len() > 0 && !starts_with(rel, "/"@) && !split_on(rel, '/').contains(".."@)
}

/// The names that lead from the root to the file `rel`, in order.
pub open spec fn normal_segments(rel: Seq<char>) -> Seq<Seq<char>> {
    split_on(rel, '/').filter(|p: Seq<char>| normal_segment(p))
}

/// The names that lead from the replay root to the stored replay path
/// `relative`; refused as unsafe when it would leave the root.
pub fn replay_path_names(relative: &str) -> (res: Result<Vec<String>, StorageError>)
    ensures
        match res {
            Ok(names) => replay_path_safe(stripped_replay_path(relative@)) && names@.map_values(
                |n: String| n@,
            ) == normal_segments(stripped_replay_path(relative@)),
            Err(e) => !replay_path_safe(stripped_replay_path(relative@)) && e == StorageError::UnsafeReplayPath,
        },
{
    let all = chars_of(relative);
    let prefix = chars_of("replays/");
    proof {
        reveal_strlit("replays/");
        reveal_strlit("/");
        reveal_strlit("..");
        reveal_strlit(".");
    }
    let rel: Vec<char> = if chars_start_with(all.as_slice(), prefix.as_slice()) {
        let mut r: Vec<char> = Vec::new();
        let mut i: usize = 8;
        while i < all.len()
            invariant
                8 <= i <= all@.len(),
                r@ == all@.subrange(8, i as int),
            decreases all@.len() - i,
        {
            r.push(all[i]);
            i += 1;
        }
        proof {
            assert(r@ =~= all@.skip(8));
        }
        r
    } else {
        all
    };
    assert(rel@ == stripped_replay_path(relative@));
    if rel.len() == 0 {
        return Err(StorageError::UnsafeReplayPath);
    }
    if rel[0] == '/' {
        proof {
            reveal_strlit("/");
            assert(rel@.subrange(0, 1) =~= "/"@);
        }
        return Err(StorageError::UnsafeReplayPath);
    }
    proof {
        reveal_strlit("/");
        assert(rel@.subrange(0, 1) != "/"@) by {
            assert(rel@.subrange(0, 1)[0] != "/"@[0]);
        }
        assert(!starts_with(rel@, "/"@));
    }
    let segments = split_chars(rel.as_slice(), '/');
    let ghost segs = split_on(rel@, '/');
    let mut names: Vec<String> = Vec::new();
    let mut i: usize = 0;
    while i < segments.len()
        invariant
            char_views(segments@) == segs,
            segs == split_on(rel@, '/'),
            rel@ == stripped_replay_path(relative@),
            i <= segments@.len(),
            forall|k: int| 0 <= k < i ==> segs[k] != ".."@,
            names@.map_values(|n: String| n@) == segs.take(i as int).filter(
                |p: Seq<char>| normal_segment(p),
            ),
        decreases segments@.len() - i,
    {
        let seg = &segments[i];
        proof {
            reveal_strlit("..");
            reveal_strlit(".");
            assert(seg@ == segs[i as int]);
            assert(segs.take(i + 1).drop_last() =~= segs.take(i as int));
            reveal(Seq::filter);
        }
        if seg.len() == 2 && seg[0] == '.' && seg[1] == '.' {
            proof {
                assert(seg@ =~= ".."@);
                assert(segs[i as int] == ".."@);
                assert(segs.contains(".."@));
            }
            return Err(StorageError::UnsafeReplayPath);
        }
        proof {
            assert(seg@ != ".."@) by {
                if seg@ == ".."@ {
                    assert(seg@.len() == 2 && seg@[0] == '.' && seg@[1] == '.');
                }
            }
        }
        let ghost before = names@.map_values(|n: String| n@);
        if seg.len() > 0 && !(seg.len() == 1 && seg[0] == '.') {
            let name = string_from_chars(seg.as_slice());
            names.push(name);
            proof {
                assert(seg@ != "."@) by {
                    if seg@ == "."@ {
                        assert(seg@.len() == 1 && seg@[0] == '.');
                    }
                }
                assert(names@.map_values(|n: String| n@) =~= before.push(seg@));
            }
        } else {
            proof {
                if seg@.len() != 0 {
                    assert(seg@ =~= "."@);
                }
            }
        }
        i += 1;
    }
    proof {
        assert(segs.take(i as int) =~= segs);
        assert(!segs.contains(".."@));
    }
    Ok(names)
}

/// What the filesystem says of a path below the replay root.
#[derive(Debug, Clone, Copy, PartialEq, Eq, Structural)]
pub enum EntryStatus {
    /// There is nothing there (yet).
    Missing,
    /// A symbolic link.
    SymbolicLink,
    /// A directory.
    Directory,
    /// Anything else, a file among them.
    Other,
    /// The filesystem could not say.
    Failed,
}

/// The verdict on the entries met on the way to a replay file, the status
/// of the `i`-th being that of the root joined with the first `i + 1`
/// names: the way ends well at the first missing entry or at the end; a
/// symbolic link, or an entry before the last that is not a directory,
/// makes it unsafe; a filesystem failure is reported as one.
pub open spec fn spec_replay_walk(statuses: Seq<EntryStatus>) -> Result<(), StorageError>
    decreases statuses.len(),
{
    if statuses.len() == 0 {
        Ok(())
    } else {
        match statuses[0] {
            EntryStatus::Missing => Ok(()),
            EntryStatus::SymbolicLink => Err(StorageError::UnsafeReplayPath),
            EntryStatus::Failed => Err(StorageError::Io),
            EntryStatus::Other => if statuses.len() > 1 {
                Err(StorageError::UnsafeReplayPath)
            } else {
                Ok(())
            },
            EntryStatus::Directory => spec_replay_walk(statuses.drop_first()),
        }
    }
}

/// The verdict on the entries met on the way to a replay file.
pub fn replay_walk(statuses: &[EntryStatus]) -> (res: Result<(), StorageError>)
    ensures
        res == spec_replay_walk(statuses@),
{
    let mut i: usize = 0;
    proof {
        assert(statuses@.skip(0) =~= statuses@);
    }
    while i < statuses.len()
        invariant
            i <= statuses@.len(),
            spec_replay_walk(statuses@) == spec_replay_walk(statuses@.skip(i as int)),
        decreases statuses@.len() - i,
    {
        proof {
            assert(statuses@.skip(i as int).drop_first() =~= statuses@.skip(i + 1));
        }
        match statuses[i] {
            EntryStatus::Missing => return Ok(()),
            EntryStatus::SymbolicLink => return Err(StorageError::UnsafeReplayPath),
            EntryStatus::Failed => return Err(StorageError::Io),
            EntryStatus::Other => {
                if i + 1 < statuses.len() {
                    return Err(StorageError::UnsafeReplayPath);
                }
                return Ok(());
            },
            EntryStatus::Directory => {},
        }
        i += 1;
    }
    Ok(())
}

/// The names of a replay path that is accepted lead down from the root
/// only: none is `..`, `.` or empty.
pub proof fn law_replay_names_stay_below_root(rel: Seq<char>, k: int)
    requires
        replay_path_safe(rel),
        0 <= k < normal_segments(rel).len(),
    ensures
        normal_segments(rel)[k] != ".."@,
        normal_segment(normal_segments(rel)[k]),
{
    let segs = split_on(rel, '/');
    let pred = |p: Seq<char>| normal_segment(p);
    let out = segs.filter(pred);
    assert(out =~= normal_segments(rel));
    segs.filter_lemma(pred);
    assert(out.contains(out[k]));
    segs.lemma_filter_contains_rev(pred, out[k]);
}

} // verus!
