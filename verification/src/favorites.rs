//! Where favorite replays are kept: a `.favorites` directory beside them, holding
//! links under names that the user chose.
use vstd::prelude::*;

use crate::path::{
    extension, file_name, is_plain_name, join, normalize_back, parent, path_extension, path_join,
    path_parent,
};
use crate::path_laws::{law_join_file_name, law_join_parent};

verus! {

/// The directory under `parent_dir` (the current directory when there is none) that
/// holds the favorites.
pub open spec fn favorites_dir_of(parent_dir: Option<Seq<char>>) -> Seq<char> {
    join(
        match parent_dir {
            Some(p) => p,
            None => Seq::empty(),
        },
        ".favorites"@,
    )
}

/// The favorites directory under `parent_dir`.
pub fn favorites_subdirectory(parent_dir: Option<&str>) -> (r: String)
    ensures
        r@ == favorites_dir_of(
            match parent_dir {
                Some(p) => Some(p@),
                None => None,
            },
        ),
{
    match parent_dir {
        Some(p) => path_join(p, ".favorites"),
        None => {
            proof {
                reveal_strlit("");
            }
            path_join("", ".favorites")
        },
    }
}

/// The paths involved in saving a replay as a favorite.
pub struct FavoritePaths {
    /// The favorites directory beside the replay.
    pub directory: String,
    /// The link to create, which is the saved favorite: the chosen name with the
    /// replay's extension, in the favorites directory.
    pub link: String,
}

/// The paths for saving the replay at `replay_path` as a favorite named `replay_name`.
pub fn favorite_paths(replay_path: &str, replay_name: &str) -> (r: FavoritePaths)
    requires
        extension(replay_path@) is Some,
    ensures
        r.directory@ == favorites_dir_of(parent(replay_path@)),
        r.link@ == join(r.directory@, replay_name@ + "."@ + extension(replay_path@).unwrap()),
{
    let parent_dir = path_parent(replay_path);
    let directory = match &parent_dir {
        Some(p) => favorites_subdirectory(Some(p.as_str())),
        None => favorites_subdirectory(None),
    };
    let ext = match path_extension(replay_path) {
        Some(e) => e,
        None => {
            assert(false);
            String::new()
        },
    };
    let mut link_name = String::from_str(replay_name);
    link_name.append(".");
    link_name.append(ext.as_str());
    let link = path_join(directory.as_str(), link_name.as_str());
    FavoritePaths { directory, link }
}

/// A favorite is saved under the chosen name with the replay's extension: when that is
/// a plain name, it is the file name of the link, and the link lies in the favorites
/// directory.
pub proof fn law_favorite_named_as_chosen(replay_path: Seq<char>, replay_name: Seq<char>)
    requires
        extension(replay_path) is Some,
        is_plain_name(replay_name + "."@ + extension(replay_path).unwrap()),
    ensures
        file_name(
            join(
                favorites_dir_of(parent(replay_path)),
                replay_name + "."@ + extension(replay_path).unwrap(),
            ),
        ) == Some(replay_name + "."@ + extension(replay_path).unwrap()),
        parent(
            join(
                favorites_dir_of(parent(replay_path)),
                replay_name + "."@ + extension(replay_path).unwrap(),
            ),
        ) == Some(normalize_back(favorites_dir_of(parent(replay_path)))),
{
    let n = replay_name + "."@ + extension(replay_path).unwrap();
    law_join_file_name(favorites_dir_of(parent(replay_path)), n);
    law_join_parent(favorites_dir_of(parent(replay_path)), n);
}

} // verus!
