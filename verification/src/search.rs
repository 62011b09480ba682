//! The search for the closest configuration file.
use crate::path::{join_path, parent_path};
use vstd::prelude::*;

verus! {

/// The file that is looked for in a directory.
pub open spec fn candidate(directory: Seq<u8>) -> Seq<u8> {
    crate::path::joined(
        crate::path::joined(directory, vstd::utf8::encode_utf8(".agent-run"@)),
        vstd::utf8::encode_utf8("config.toml"@),
    )
}

/// All files that are looked for, from the given directory up to the root.
pub open spec fn candidates(directory: Seq<u8>) -> Seq<Seq<u8>>
    decreases directory.len(),
{
    match crate::path::parent(directory) {
        Some(above) => {
            proof {
                crate::path::parent_is_shorter(directory);
            }
            seq![candidate(directory)] + candidates(above)
        },
        None => seq![candidate(directory)],
    }
}

/// A search, at one of the directories.
#[derive(Debug)]
pub struct ConfigSearch {
    pub directory: Vec<u8>,
}

/// What comes after a look at a file.
#[derive(Debug)]
pub enum SearchStep {
    /// The file is there.
    Found(Vec<u8>),
    /// The search goes on in the directory above.
    Continue(ConfigSearch),
    /// There is no directory above.
    Exhausted,
}

/// The mathematical content of a [`SearchStep`].
pub enum Progress {
    Found(Seq<u8>),
    Continue(Seq<u8>),
    Exhausted,
}

impl View for SearchStep {
    type V = Progress;

    open spec fn view(&self) -> Progress {
        match self {
            SearchStep::Found(path) => Progress::Found(path@),
            SearchStep::Continue(search) => Progress::Continue(search.directory@),
            SearchStep::Exhausted => Progress::Exhausted,
        }
    }
}

/// What comes after a look at the file of a directory.
pub open spec fn search_step(directory: Seq<u8>, exists: bool) -> Progress {
    if exists {
        Progress::Found(candidate(directory))
    } else {
        match crate::path::parent(directory) {
            Some(above) => Progress::Continue(above),
            None => Progress::Exhausted,
        }
    }
}

impl ConfigSearch {
    /// Starts a search in the given directory.
    pub fn new(directory: Vec<u8>) -> (r: ConfigSearch)
        ensures
            r.directory@ == directory@,
    {
        ConfigSearch { directory }
    }

    /// The file to look at.
    pub fn candidate(&self) -> (r: Vec<u8>)
        ensures
            r@ == candidate(self.directory@),
    {
        let folder: Vec<u8> = join_path(self.directory.as_slice(), ".agent-run".as_bytes());
        join_path(folder.as_slice(), "config.toml".as_bytes())
    }

    /// Goes on, given whether the file was there.
    pub fn advance(self, exists: bool) -> (r: SearchStep)
        ensures
            r@ == search_step(self.directory@, exists),
    {
        if exists {
            return SearchStep::Found(self.candidate());
        }
        match parent_path(self.directory.as_slice()) {
            Some(directory) => SearchStep::Continue(ConfigSearch { directory }),
            None => SearchStep::Exhausted,
        }
    }
}

/// What a search finds where `files` are there.
pub open spec fn found(directory: Seq<u8>, files: Set<Seq<u8>>) -> Option<Seq<u8>>
    decreases directory.len(),
{
    match search_step(directory, files.contains(candidate(directory))) {
        Progress::Found(path) => Some(path),
        Progress::Continue(above) => {
            proof {
                crate::path::parent_is_shorter(directory);
            }
            found(above, files)
        },
        Progress::Exhausted => None,
    }
}

/// A search ends, and finds the closest of the files that are there: the first of
/// the candidates.
pub proof fn closest_file_is_found(directory: Seq<u8>, files: Set<Seq<u8>>)
    ensures
        match found(directory, files) {
            Some(path) => exists|i: int|
                {
                    &&& 0 <= i < candidates(directory).len()
                    &&& #[trigger] candidates(directory)[i] == path
                    &&& files.contains(path)
                    &&& forall|k: int| 0 <= k < i ==> !files.contains(#[trigger] candidates(directory)[k])
                },
            None => forall|k: int|
                0 <= k < candidates(directory).len() ==> !files.contains(
                    #[trigger] candidates(directory)[k],
                ),
        },
    decreases directory.len(),
{
    let all = candidates(directory);
    crate::path::parent_is_shorter(directory);
    assert(all[0] == candidate(directory));
    if !files.contains(candidate(directory)) {
        if let Some(above) = crate::path::parent(directory) {
            closest_file_is_found(above, files);
            let rest = candidates(above);
            assert(all =~= seq![candidate(directory)] + rest);
            assert forall|k: int| 1 <= k < all.len() implies #[trigger] all[k] == rest[k - 1] by {}
            match found(above, files) {
                Some(path) => {
                    let i = choose|i: int|
                        {
                            &&& 0 <= i < rest.len()
                            &&& #[trigger] rest[i] == path
                            &&& files.contains(path)
                            &&& forall|k: int| 0 <= k < i ==> !files.contains(#[trigger] rest[k])
                        };
                    assert(all[i + 1] == path);
                    assert forall|k: int| 0 <= k < i + 1 implies !files.contains(#[trigger] all[k]) by {
                        if k > 0 {
                            assert(all[k] == rest[k - 1]);
                        }
                    }
                },
                None => {
                    assert forall|k: int| 0 <= k < all.len() implies !files.contains(#[trigger] all[k]) by {
                        if k > 0 {
                            assert(all[k] == rest[k - 1]);
                        }
                    }
                },
            }
        }
    }
}

/// Steps and searches show what they hold.
pub proof fn steps_show_what_they_hold(step: SearchStep)
    ensures
        step matches SearchStep::Found(path) ==> step@ == Progress::Found(path@),
        step matches SearchStep::Continue(search) ==> step@ == Progress::Continue(
            search.directory@,
        ),
        step is Exhausted ==> step@ is Exhausted,
{
}

/// In every directory the file `config.toml` of its folder `.agent-run` is looked
/// for.
pub proof fn files_are_looked_for_in_the_folder(directory: Seq<u8>)
    ensures
        directory.len() == 0 || directory.last() == 0x2f ==> candidate(directory) == directory
            + vstd::utf8::encode_utf8(".agent-run"@) + seq![0x2fu8] + vstd::utf8::encode_utf8(
            "config.toml"@,
        ),
        directory.len() > 0 && directory.last() != 0x2f ==> candidate(directory) == directory
            + seq![0x2fu8] + vstd::utf8::encode_utf8(".agent-run"@) + seq![0x2fu8]
            + vstd::utf8::encode_utf8("config.toml"@),
{
    reveal_strlit(".agent-run");
    reveal_strlit("config.toml");
    let folder = vstd::utf8::encode_utf8(".agent-run"@);
    let file = vstd::utf8::encode_utf8("config.toml"@);
    crate::text::lemma_encoded_start(".agent-run"@, '/');
    crate::text::lemma_encoded_start("config.toml"@, '/');
    crate::text::lemma_encoded_ascii(".agent-run"@, '/');
    assert(!".agent-run"@.contains('/'));
    assert(folder.last() != 0x2fu8) by {
        assert(folder.contains(folder[folder.len() - 1]));
    }
    crate::path::joining_puts_paths_behind_directories(directory, folder);
    let inner = crate::path::joined(directory, folder);
    assert(inner.last() == folder.last());
    crate::path::joining_puts_paths_behind_directories(inner, file);
}

/// A file that is there ends the search with its path. Otherwise the search goes on
/// in the directory above, and ends without one where there is none: at the root.
pub proof fn searches_go_upwards(directory: Seq<u8>, base: Seq<u8>, name: Seq<u8>)
    requires
        name.len() > 0,
        !name.contains(0x2fu8),
        name != seq![0x2eu8],
        base.len() == 0 || base.last() != 0x2f,
        base.len() > 1 ==> !(base.last() == 0x2e && base[base.len() - 2] == 0x2f),
    ensures
        search_step(directory, true) == Progress::Found(candidate(directory)),
        base.len() > 0 ==> search_step(base + seq![0x2fu8] + name, false) == Progress::Continue(
            base,
        ),
        search_step(seq![0x2fu8] + name, false) == Progress::Continue(seq![0x2fu8]),
        search_step(seq![0x2fu8], false) is Exhausted,
{
    crate::path::slashes_and_dots_at_the_end_name_nothing(base);
    if base.len() > 0 {
        let above = base + seq![0x2fu8];
        crate::path::parents_end_before_the_last_name(above, name);
        let q = crate::path::parent(above + name).unwrap();
        let n = base.len() as int;
        assert(above[n - 1] == base.last());
        if q.len() < n {
            assert(above[n - 1] == 0x2e && above[n - 2] == 0x2f);
            assert(base[n - 2] == 0x2f);
        }
        if q.len() > n {
            assert(q.last() == above[n]);
        }
        assert(q =~= base);
    }
    let root = seq![0x2fu8];
    crate::path::parents_end_before_the_last_name(root, name);
    let q = crate::path::parent(root + name).unwrap();
    assert(q =~= root);
}

/// A search that does not find the file in its directory finds what it finds from
/// the directory above.
pub proof fn searches_continue_above(directory: Seq<u8>, files: Set<Seq<u8>>)
    ensures
        files.contains(candidate(directory)) ==> found(directory, files) == Some(
            candidate(directory),
        ),
        !files.contains(candidate(directory)) ==> match crate::path::parent(directory) {
            Some(above) => found(directory, files) == found(above, files) && search_step(
                directory,
                false,
            ) == Progress::Continue(above),
            None => found(directory, files) is None && search_step(directory, false) is Exhausted,
        },
{
}

} // verus!
