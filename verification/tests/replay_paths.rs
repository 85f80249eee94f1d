use double_riichi_server::replays::{replay_path_names, replay_walk, EntryStatus};
use double_riichi_server::responses::StorageError;

fn names(path: &str) -> Result<Vec<String>, StorageError> {
    replay_path_names(path)
}

#[test]
fn replay_paths_stay_below_the_root() {
    assert_eq!(names("replays/2024/m1.json"), Ok(vec!["2024".to_string(), "m1.json".to_string()]));
    assert_eq!(names("2024//./m1.json"), Ok(vec!["2024".to_string(), "m1.json".to_string()]));
    assert_eq!(names(""), Err(StorageError::UnsafeReplayPath));
    assert_eq!(names("replays/"), Err(StorageError::UnsafeReplayPath));
    assert_eq!(names("/etc/passwd"), Err(StorageError::UnsafeReplayPath));
    assert_eq!(names("replays/../secret"), Err(StorageError::UnsafeReplayPath));
    assert_eq!(names("a/b/.."), Err(StorageError::UnsafeReplayPath));
    assert_eq!(names("a/..b"), Ok(vec!["a".to_string(), "..b".to_string()]));
}

#[test]
fn replay_walk_refuses_links_and_files_on_the_way() {
    assert_eq!(replay_walk(&[]), Ok(()));
    assert_eq!(replay_walk(&[EntryStatus::Directory, EntryStatus::Other]), Ok(()));
    assert_eq!(replay_walk(&[EntryStatus::Directory, EntryStatus::Missing, EntryStatus::SymbolicLink]), Ok(()));
    assert_eq!(replay_walk(&[EntryStatus::SymbolicLink, EntryStatus::Other]), Err(StorageError::UnsafeReplayPath));
    assert_eq!(replay_walk(&[EntryStatus::Other, EntryStatus::Other]), Err(StorageError::UnsafeReplayPath));
    assert_eq!(replay_walk(&[EntryStatus::Directory, EntryStatus::Failed]), Err(StorageError::Io));
}
