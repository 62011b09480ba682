//! Mount paths: tilde expansion, resolution, and what becomes of paths that are
//! not there.
use crate::path::{is_absolute, join_path, parent_path};
use crate::text::{characters, concat_text, has_char, slice_text};
use vstd::prelude::*;

verus! {

/// Whose home directory a path starts in.
#[derive(Debug)]
pub enum HomeLookup {
    /// The path does not start with a tilde.
    NotNeeded,
    /// The path is `~` or starts with `~/`.
    Current,
    /// The path starts with `~` and the name of a user.
    Named(String),
}

/// The mathematical content of a [`HomeLookup`].
pub enum Tilde {
    NotNeeded,
    Current,
    Named(Seq<char>),
}

impl View for HomeLookup {
    type V = Tilde;

    open spec fn view(&self) -> Tilde {
        match self {
            HomeLookup::NotNeeded => Tilde::NotNeeded,
            HomeLookup::Current => Tilde::Current,
            HomeLookup::Named(name) => Tilde::Named(name@),
        }
    }
}

/// Where the tilde and the name of the user behind it end.
pub open spec fn tilde_end(path: Seq<char>) -> int {
    crate::text::first_index(path, '/', 1)
}

/// Whose home directory a path starts in.
pub open spec fn tilde(path: Seq<char>) -> Tilde {
    if path.len() == 0 || path[0] != '~' {
        Tilde::NotNeeded
    } else if tilde_end(path) == 1 {
        Tilde::Current
    } else {
        Tilde::Named(path.subrange(1, tilde_end(path)))
    }
}

/// The path with its tilde replaced by the home directory, where that is known.
pub open spec fn expanded(path: Seq<char>, home: Option<Seq<char>>) -> Seq<char> {
    match home {
        Some(directory) => if tilde(path) is NotNeeded {
            path
        } else {
            directory + path.skip(tilde_end(path))
        },
        None => path,
    }
}

/// What an optional string holds.
pub open spec fn text_option(text: Option<String>) -> Option<Seq<char>> {
    match text {
        Some(text) => Some(text@),
        None => None,
    }
}

/// The position of the first slash behind the first character, or the number of
/// characters.
fn find_tilde_end(path: &str) -> (end: usize)
    requires
        path@.len() > 0,
    ensures
        end == tilde_end(path@),
        1 <= end <= path@.len(),
{
    let chars: Vec<char> = characters(path);
    let mut end: usize = 1;
    while end < chars.len() && chars[end] != '/'
        invariant
            chars@ == path@,
            1 <= end <= chars@.len(),
            tilde_end(path@) == crate::text::first_index(path@, '/', end as int),
        decreases chars@.len() - end,
    {
        end = end + 1;
    }
    end
}

/// Whose home directory the path starts in.
pub fn home_lookup(path: &str) -> (r: HomeLookup)
    ensures
        r@ == tilde(path@),
{
    if path.unicode_len() == 0 || path.get_char(0) != '~' {
        return HomeLookup::NotNeeded;
    }
    let end: usize = find_tilde_end(path);
    if end == 1 {
        HomeLookup::Current
    } else {
        HomeLookup::Named(slice_text(path, 1, end))
    }
}

/// Calls `shellexpand::tilde_with_context`, which puts the given home directory
/// in place of a leading `~` that is followed by a slash or by nothing. Without a
/// home directory, and in paths that do not start with a tilde, it changes
/// nothing.
#[verifier::external_body]
fn expand_current(path: &str, home: Option<String>) -> (r: String)
    requires
        !(tilde(path@) is Named),
    ensures
        r@ == expanded(path@, text_option(home)),
{
    shellexpand::tilde_with_context(path, || home).into_owned()
}

/// Replaces a leading tilde by the home directory that [`home_lookup`] asks for.
/// Where that is not known, the path is kept.
pub fn expand_tilde(path: &str, home: Option<String>) -> (r: String)
    ensures
        r@ == expanded(path@, text_option(home)),
{
    match home_lookup(path) {
        HomeLookup::Named(_) => match home {
            Some(directory) => {
                let end: usize = find_tilde_end(path);
                let rest: String = slice_text(path, end, path.unicode_len());
                assert(rest@ == path@.skip(end as int));
                concat_text(directory.as_str(), rest.as_str())
            },
            None => path.to_owned(),
        },
        _ => expand_current(path, home),
    }
}

/// How far the handling of a mount path has come.
#[derive(Debug)]
pub enum MountState {
    /// The path is to be made canonical.
    Canonicalize(Vec<u8>),
    /// It is to be seen whether something stands at the path.
    Probe(Vec<u8>),
    /// The path is mounted as read-write.
    Bind(Vec<u8>),
    /// Nothing stands at the path: a warning is shown, and it is left out.
    Skip(Vec<u8>),
    /// The path could not be made canonical.
    Fail(Vec<u8>),
}

/// What came of what a [`MountState`] asks for.
#[derive(Debug)]
pub enum MountEvent {
    /// The canonical path.
    Canonical(Vec<u8>),
    /// There is nothing at the path to make canonical.
    NotFound,
    /// The path could not be made canonical for another reason.
    Failed,
    /// Whether something stands at the path.
    Exists(bool),
}

/// The mathematical content of a [`MountState`].
pub enum Mounting {
    Canonicalize(Seq<u8>),
    Probe(Seq<u8>),
    Bind(Seq<u8>),
    Skip(Seq<u8>),
    Fail(Seq<u8>),
}

/// The mathematical content of a [`MountEvent`].
pub enum Observation {
    Canonical(Seq<u8>),
    NotFound,
    Failed,
    Exists(bool),
}

impl View for MountState {
    type V = Mounting;

    open spec fn view(&self) -> Mounting {
        match self {
            MountState::Canonicalize(path) => Mounting::Canonicalize(path@),
            MountState::Probe(path) => Mounting::Probe(path@),
            MountState::Bind(path) => Mounting::Bind(path@),
            MountState::Skip(path) => Mounting::Skip(path@),
            MountState::Fail(path) => Mounting::Fail(path@),
        }
    }
}

impl View for MountEvent {
    type V = Observation;

    open spec fn view(&self) -> Observation {
        match self {
            MountEvent::Canonical(path) => Observation::Canonical(path@),
            MountEvent::NotFound => Observation::NotFound,
            MountEvent::Failed => Observation::Failed,
            MountEvent::Exists(exists) => Observation::Exists(*exists),
        }
    }
}

/// Why a mount path is refused.
#[derive(Clone, Copy, Debug, PartialEq, Eq, Structural)]
pub enum MountError {
    /// The path, or the directory it lies in, holds a NUL byte.
    NulByte,
}

impl MountError {
    /// The message shown for the error.
    pub open spec fn text(self) -> Seq<char> {
        "Mount path contains a NUL byte"@
    }

    /// The message shown for the error.
    pub fn message(self) -> (r: String)
        ensures
            r@ == self.text(),
    {
        "Mount path contains a NUL byte".to_owned()
    }
}

/// Where an expanded path lies: absolute paths as they are, others relative to
/// the directory of the configuration file. Without a configuration file they are
/// kept.
pub open spec fn located(path: Seq<u8>, config: Option<Seq<u8>>, current: Seq<u8>) -> Seq<u8> {
    if crate::path::absolute(path) {
        path
    } else {
        match config {
            Some(file) => crate::path::joined(
                match crate::path::parent(file) {
                    Some(directory) => directory,
                    None => current,
                },
                path,
            ),
            None => path,
        }
    }
}

/// What is to be done first for a mount path of the configuration.
pub open spec fn resolved(
    path: Seq<char>,
    home: Option<Seq<char>>,
    config: Option<Seq<u8>>,
    current: Seq<u8>,
) -> Result<Mounting, MountError> {
    let bytes = vstd::utf8::encode_utf8(expanded(path, home));
    let place = located(bytes, config, current);
    if path.contains('\0') || place.contains(0u8) {
        Err(MountError::NulByte)
    } else if crate::path::absolute(bytes) {
        Ok(Mounting::Probe(place))
    } else {
        Ok(Mounting::Canonicalize(place))
    }
}

/// What an optional path holds.
pub open spec fn path_option(path: Option<&Vec<u8>>) -> Option<Seq<u8>> {
    match path {
        Some(path) => Some(path@),
        None => None,
    }
}

/// Whether a byte occurs.
pub(crate) fn has_byte(bytes: &[u8], byte: u8) -> (b: bool)
    ensures
        b == bytes@.contains(byte),
{
    let mut i: usize = 0;
    while i < bytes.len()
        invariant
            i <= bytes@.len(),
            forall|k: int| 0 <= k < i ==> bytes@[k] != byte,
        decreases bytes@.len() - i,
    {
        if bytes[i] == byte {
            assert(bytes@[i as int] == byte);
            return true;
        }
        i = i + 1;
    }
    false
}

/// Where an expanded path lies.
fn locate(path: &[u8], config: Option<&Vec<u8>>, current: &Vec<u8>) -> (r: Vec<u8>)
    ensures
        r@ == located(path@, path_option(config), current@),
{
    match config {
        Some(file) => match parent_path(file.as_slice()) {
            Some(directory) => join_path(directory.as_slice(), path),
            None => join_path(current.as_slice(), path),
        },
        None => vstd::slice::slice_to_vec(path),
    }
}

/// Expands a mount path of the configuration file at `config`, and says what is
/// to be done with it first. `home` is what [`home_lookup`] asks for, `current`
/// the current directory.
pub fn resolve_path(
    path: &str,
    home: Option<String>,
    config: Option<&Vec<u8>>,
    current: &Vec<u8>,
) -> (r: Result<MountState, MountError>)
    ensures
        match r {
            Ok(state) => resolved(path@, text_option(home), path_option(config), current@) == Ok::<
                Mounting,
                MountError,
            >(state@),
            Err(error) => resolved(path@, text_option(home), path_option(config), current@) == Err::<
                Mounting,
                MountError,
            >(error),
        },
{
    if has_char(path, '\0') {
        return Err(MountError::NulByte);
    }
    let text: String = expand_tilde(path, home);
    let bytes: &[u8] = text.as_str().as_bytes();
    let place: Vec<u8> = locate(bytes, config, current);
    if has_byte(place.as_slice(), 0) {
        Err(MountError::NulByte)
    } else if is_absolute(bytes) {
        Ok(MountState::Probe(place))
    } else {
        Ok(MountState::Canonicalize(place))
    }
}

/// What follows from a state and what came of it. An event that the state did not
/// ask for changes nothing.
pub open spec fn mount_step(state: Mounting, event: Observation) -> Mounting {
    match (state, event) {
        (Mounting::Canonicalize(_), Observation::Canonical(path)) => Mounting::Probe(path),
        (Mounting::Canonicalize(path), Observation::NotFound) => Mounting::Skip(path),
        (Mounting::Canonicalize(path), Observation::Failed) => Mounting::Fail(path),
        (Mounting::Probe(path), Observation::Exists(true)) => Mounting::Bind(path),
        (Mounting::Probe(path), Observation::Exists(false)) => Mounting::Skip(path),
        _ => state,
    }
}

/// What follows from `state` and what came of it.
pub fn advance_mount(state: MountState, event: MountEvent) -> (r: MountState)
    ensures
        r@ == mount_step(state@, event@),
{
    match state {
        MountState::Canonicalize(path) => match event {
            MountEvent::Canonical(canonical) => MountState::Probe(canonical),
            MountEvent::NotFound => MountState::Skip(path),
            MountEvent::Failed => MountState::Fail(path),
            MountEvent::Exists(_) => MountState::Canonicalize(path),
        },
        MountState::Probe(path) => match event {
            MountEvent::Exists(exists) => if exists {
                MountState::Bind(path)
            } else {
                MountState::Skip(path)
            },
            _ => MountState::Probe(path),
        },
        other => other,
    }
}

/// The warning for a mount path at which nothing stands.
pub open spec fn missing_mount_text(path: Seq<char>) -> Seq<char> {
    "Warning: Mount path "@ + path + " does not exist, skipping"@
}

/// The warning for a mount path at which nothing stands.
pub fn missing_mount_warning(path: &str) -> (r: String)
    ensures
        r@ == missing_mount_text(path@),
{
    concat_text(
        concat_text("Warning: Mount path ", path).as_str(),
        " does not exist, skipping",
    )
}

/// A path that does not start with a tilde is not expanded.
pub proof fn plain_paths_are_not_expanded(path: Seq<char>, home: Option<Seq<char>>)
    requires
        path.len() == 0 || path[0] != '~',
    ensures
        expanded(path, home) == path,
{
}

/// A tilde in front of a slash, or alone, stands for the home directory of the
/// current user.
pub proof fn home_paths_are_expanded(rest: Seq<char>, home: Seq<char>)
    requires
        rest.len() == 0 || rest[0] == '/',
    ensures
        tilde(seq!['~'] + rest) is Current,
        expanded(seq!['~'] + rest, Some(home)) == home + rest,
        expanded(seq!['~'] + rest, None) == seq!['~'] + rest,
{
    let path = seq!['~'] + rest;
    crate::text::lemma_first_index_unique(path, '/', 1, 1);
    assert(path.skip(1) =~= rest);
}

/// A tilde in front of the name of a user stands for the home directory of that
/// user.
pub proof fn user_paths_are_expanded(name: Seq<char>, rest: Seq<char>, home: Seq<char>)
    requires
        name.len() > 0,
        !name.contains('/'),
        rest.len() == 0 || rest[0] == '/',
    ensures
        tilde(seq!['~'] + name + rest) == Tilde::Named(name),
        expanded(seq!['~'] + name + rest, Some(home)) == home + rest,
        expanded(seq!['~'] + name + rest, None) == seq!['~'] + name + rest,
{
    let path = seq!['~'] + name + rest;
    let end = 1 + name.len() as int;
    assert forall|k: int| 1 <= k < end implies path[k] != '/' by {
        assert(path[k] == name[k - 1]);
        assert(name.contains(name[k - 1]));
    }
    crate::text::lemma_first_index_unique(path, '/', 1, end);
    assert(path.subrange(1, end) =~= name);
    assert(path.skip(end) =~= rest);
}

/// An absolute path of the configuration is mounted as it is written, wherever
/// the configuration file lies.
pub proof fn absolute_paths_are_kept(
    path: Seq<char>,
    home: Option<Seq<char>>,
    config: Option<Seq<u8>>,
    current: Seq<u8>,
)
    requires
        crate::path::absolute(path),
        !path.contains('\0'),
    ensures
        resolved(path, home, config, current) == Ok::<Mounting, MountError>(
            Mounting::Probe(vstd::utf8::encode_utf8(path)),
        ),
        mount_step(
            Mounting::Probe(vstd::utf8::encode_utf8(path)),
            Observation::Exists(true),
        ) == Mounting::Bind(vstd::utf8::encode_utf8(path)),
{
    crate::text::lemma_encoded_start(path, '/');
    crate::text::lemma_encoded_ascii(path, '\0');
}

/// A relative path of a configuration file is looked up in the directory of that
/// file.
pub proof fn relative_paths_start_at_the_configuration(
    path: Seq<char>,
    config: Seq<u8>,
    directory: Seq<u8>,
    current: Seq<u8>,
)
    requires
        tilde(path) is NotNeeded,
        !crate::path::absolute(path),
        !path.contains('\0'),
        crate::path::parent(config) == Some(directory),
        !directory.contains(0u8),
    ensures
        resolved(path, None, Some(config), current) == Ok::<Mounting, MountError>(
            Mounting::Canonicalize(
                crate::path::joined(directory, vstd::utf8::encode_utf8(path)),
            ),
        ),
{
    let bytes = vstd::utf8::encode_utf8(path);
    let place = crate::path::joined(directory, bytes);
    crate::text::lemma_encoded_start(path, '/');
    crate::text::lemma_encoded_ascii(path, '\0');
    if place.contains(0u8) {
        let k = place.index_of(0u8);
        let offset = place.len() - bytes.len();
        if k >= offset {
            assert(bytes[k - offset] == 0u8);
        } else if k < directory.len() {
            assert(directory[k] == 0u8);
        }
    }
}

/// A path with a NUL character is refused, whatever else is known.
pub proof fn nul_in_a_path_is_refused(
    path: Seq<char>,
    home: Option<Seq<char>>,
    config: Option<Seq<u8>>,
    current: Seq<u8>,
)
    requires
        path.contains('\0'),
    ensures
        resolved(path, home, config, current) == Err::<Mounting, MountError>(MountError::NulByte),
{
}

/// A relative path is mounted at the place that it leads to.
pub proof fn relative_paths_are_mounted_where_they_lead(path: Seq<u8>, canonical: Seq<u8>)
    ensures
        mount_step(
            mount_step(Mounting::Canonicalize(path), Observation::Canonical(canonical)),
            Observation::Exists(true),
        ) == Mounting::Bind(canonical),
{
}

/// What becomes of a state through a series of events.
pub open spec fn mount_run(state: Mounting, events: Seq<Observation>) -> Mounting
    decreases events.len(),
{
    if events.len() == 0 {
        state
    } else {
        mount_step(mount_run(state, events.drop_last()), events.last())
    }
}

/// Whether a path starts at the root and is free of NUL, as canonical paths are.
pub open spec fn rooted(path: Seq<u8>) -> bool {
    crate::path::absolute(path) && !path.contains(0u8)
}

/// Whether the path that a state probes for or mounts, if any, is rooted.
pub open spec fn places_are_rooted(state: Mounting) -> bool {
    match state {
        Mounting::Probe(place) => rooted(place),
        Mounting::Bind(place) => rooted(place),
        _ => true,
    }
}

proof fn lemma_places_stay_rooted(state: Mounting, events: Seq<Observation>)
    requires
        places_are_rooted(state),
        forall|i: int|
            0 <= i < events.len() ==> (#[trigger] events[i] matches Observation::Canonical(path)
                ==> rooted(path)),
    ensures
        places_are_rooted(mount_run(state, events)),
    decreases events.len(),
{
    if events.len() > 0 {
        let rest = events.drop_last();
        assert forall|i: int| 0 <= i < rest.len() implies (#[trigger] rest[i] matches
            Observation::Canonical(path) ==> rooted(path)) by {
            assert(rest[i] == events[i]);
        }
        lemma_places_stay_rooted(state, rest);
        assert(events.last() == events[events.len() - 1]);
    }
}

/// Resolving a rooted path changes nothing, with any home directory, configuration
/// file and current directory.
pub proof fn rooted_paths_resolve_to_themselves(
    text: Seq<char>,
    home: Option<Seq<char>>,
    config: Option<Seq<u8>>,
    current: Seq<u8>,
)
    requires
        rooted(vstd::utf8::encode_utf8(text)),
    ensures
        resolved(text, home, config, current) == Ok::<Mounting, MountError>(
            Mounting::Probe(vstd::utf8::encode_utf8(text)),
        ),
{
    crate::text::lemma_encoded_start(text, '/');
    crate::text::lemma_encoded_ascii(text, '\0');
    absolute_paths_are_kept(text, home, config, current);
}

/// Resolving a resolved path changes nothing: whatever path `place` was resolved
/// from, it starts at the root, and where it is the encoding of a text, that text
/// resolves to `place` again, with any home directory, configuration file and
/// current directory. Canonical paths are taken to be rooted.
pub proof fn resolving_twice_changes_nothing(
    path: Seq<char>,
    home: Option<Seq<char>>,
    config: Option<Seq<u8>>,
    current: Seq<u8>,
    start: Mounting,
    events: Seq<Observation>,
    place: Seq<u8>,
)
    requires
        resolved(path, home, config, current) == Ok::<Mounting, MountError>(start),
        forall|i: int|
            0 <= i < events.len() ==> (#[trigger] events[i] matches Observation::Canonical(found)
                ==> rooted(found)),
        mount_run(start, events) == Mounting::Probe(place) || mount_run(start, events)
            == Mounting::Bind(place),
    ensures
        crate::path::absolute(place),
        forall|
            text: Seq<char>,
            home2: Option<Seq<char>>,
            config2: Option<Seq<u8>>,
            current2: Seq<u8>,
        |
            vstd::utf8::encode_utf8(text) == place ==> #[trigger] resolved(
                text,
                home2,
                config2,
                current2,
            ) == Ok::<Mounting, MountError>(Mounting::Probe(place)),
{
    lemma_places_stay_rooted(start, events);
    assert forall|
        text: Seq<char>,
        home2: Option<Seq<char>>,
        config2: Option<Seq<u8>>,
        current2: Seq<u8>,
    |
        vstd::utf8::encode_utf8(text) == place implies #[trigger] resolved(
        text,
        home2,
        config2,
        current2,
    ) == Ok::<Mounting, MountError>(Mounting::Probe(place)) by {
        rooted_paths_resolve_to_themselves(text, home2, config2, current2);
    }
}

/// Only a path at which something stands is mounted.
pub proof fn mounted_paths_exist(state: Mounting, event: Observation)
    requires
        !(state is Bind),
    ensures
        mount_step(state, event) matches Mounting::Bind(path) ==> state == Mounting::Probe(path)
            && event == Observation::Exists(true),
{
}

/// A path at which nothing stands is left out.
pub proof fn missing_paths_are_skipped(path: Seq<u8>)
    ensures
        mount_step(Mounting::Canonicalize(path), Observation::NotFound) == Mounting::Skip(path),
        mount_step(Mounting::Probe(path), Observation::Exists(false)) == Mounting::Skip(path),
{
}

/// How many steps can follow at most.
pub open spec fn mount_steps_left(state: Mounting) -> int {
    match state {
        Mounting::Canonicalize(_) => 2,
        Mounting::Probe(_) => 1,
        Mounting::Bind(_) => 0,
        Mounting::Skip(_) => 0,
        Mounting::Fail(_) => 0,
    }
}

/// Every event that a state asks for brings the end closer, and the end is final.
pub proof fn mounts_end(state: Mounting, event: Observation)
    ensures
        mount_step(state, event) != state ==> 0 <= mount_steps_left(mount_step(state, event))
            < mount_steps_left(state),
        mount_steps_left(state) == 0 ==> mount_step(state, event) == state,
{
}

/// Lookups, states and events show what they hold.
pub proof fn states_show_what_they_hold(lookup: HomeLookup, state: MountState, event: MountEvent)
    ensures
        lookup is NotNeeded <==> lookup@ is NotNeeded,
        lookup is Current <==> lookup@ is Current,
        lookup matches HomeLookup::Named(name) ==> lookup@ == Tilde::Named(name@),
        state matches MountState::Canonicalize(path) ==> state@ == Mounting::Canonicalize(path@),
        state matches MountState::Probe(path) ==> state@ == Mounting::Probe(path@),
        state matches MountState::Bind(path) ==> state@ == Mounting::Bind(path@),
        state matches MountState::Skip(path) ==> state@ == Mounting::Skip(path@),
        state matches MountState::Fail(path) ==> state@ == Mounting::Fail(path@),
        event matches MountEvent::Canonical(path) ==> event@ == Observation::Canonical(path@),
        event is NotFound ==> event@ is NotFound,
        event is Failed ==> event@ is Failed,
        event matches MountEvent::Exists(exists) ==> event@ == Observation::Exists(exists),
{
}

/// Optional texts and paths show what they hold.
pub proof fn options_show_what_they_hold(text: Option<String>, path: Option<&Vec<u8>>)
    ensures
        text is None <==> text_option(text) is None,
        text matches Some(held) ==> text_option(text) == Some(held@),
        path is None <==> path_option(path) is None,
        path matches Some(held) ==> path_option(path) == Some(held@),
{
}

/// A path needs no home directory exactly if it does not start with a tilde, and is
/// then kept, as it is where the home directory is not known.
pub proof fn only_tildes_need_a_home(path: Seq<char>, home: Option<Seq<char>>)
    ensures
        tilde(path) is NotNeeded <==> path.len() == 0 || path[0] != '~',
        path.len() == 0 || path[0] != '~' ==> expanded(path, home) == path,
        home is None ==> expanded(path, home) == path,
{
}

/// Where a mount path leads first. Its expansion is probed as it is where it starts
/// with a slash. Otherwise it is made canonical: as it is without a configuration
/// file, and behind the directory of that file, or the current directory where the
/// file has none, with a slash between them. Nothing with a NUL is accepted, and
/// nothing without one is refused.
pub proof fn mount_paths_are_resolved(
    path: Seq<char>,
    home: Option<Seq<char>>,
    config: Option<Seq<u8>>,
    current: Seq<u8>,
    directory: Seq<u8>,
)
    requires
        config matches Some(file) ==> crate::path::parent(file) == Some(directory) || (
        crate::path::parent(file) is None && directory == current),
    ensures
        ({
            let bytes = vstd::utf8::encode_utf8(expanded(path, home));
            let rooted = bytes.len() > 0 && bytes[0] == 0x2f;
            let place = if rooted || config is None {
                bytes
            } else if directory.len() == 0 || directory.last() == 0x2f {
                directory + bytes
            } else {
                directory + seq![0x2fu8] + bytes
            };
            let result = resolved(path, home, config, current);
            &&& result is Err <==> path.contains('\0') || place.contains(0u8)
            &&& result is Ok && rooted ==> result == Ok::<Mounting, MountError>(
                Mounting::Probe(place),
            )
            &&& result is Ok && !rooted ==> result == Ok::<Mounting, MountError>(
                Mounting::Canonicalize(place),
            )
        }),
{
    let bytes = vstd::utf8::encode_utf8(expanded(path, home));
    crate::path::joining_puts_paths_behind_directories(directory, bytes);
}

/// A path on its way is never exchanged for another, but for its canonical form.
/// What stands there is mounted, what is missing is skipped, any other failure is
/// reported, and an event that was not asked for changes nothing.
pub proof fn mounts_follow_what_is_found(path: Seq<u8>, other: Seq<u8>, event: Observation)
    ensures
        mount_step(Mounting::Canonicalize(path), Observation::Canonical(other)) == Mounting::Probe(
            other,
        ),
        mount_step(Mounting::Canonicalize(path), Observation::NotFound) == Mounting::Skip(path),
        mount_step(Mounting::Canonicalize(path), Observation::Failed) == Mounting::Fail(path),
        event is Exists ==> mount_step(Mounting::Canonicalize(path), event)
            == Mounting::Canonicalize(path),
        mount_step(Mounting::Probe(path), Observation::Exists(true)) == Mounting::Bind(path),
        mount_step(Mounting::Probe(path), Observation::Exists(false)) == Mounting::Skip(path),
        !(event is Exists) ==> mount_step(Mounting::Probe(path), event) == Mounting::Probe(path),
        mount_step(Mounting::Bind(path), event) == Mounting::Bind(path),
        mount_step(Mounting::Skip(path), event) == Mounting::Skip(path),
        mount_step(Mounting::Fail(path), event) == Mounting::Fail(path),
{
}

/// The warning names the path, and says that it is skipped.
pub proof fn warnings_name_the_path(path: Seq<char>)
    ensures
        ({
            let text = missing_mount_text(path);
            let start = "Warning: Mount path "@;
            let end = " does not exist, skipping"@;
            &&& text.len() == start.len() + path.len() + end.len()
            &&& text.take(start.len() as int) == start
            &&& text.subrange(start.len() as int, (start.len() + path.len()) as int) == path
            &&& text.skip((start.len() + path.len()) as int) == end
        }),
{
    let text = missing_mount_text(path);
    let start = "Warning: Mount path "@;
    let end = " does not exist, skipping"@;
    assert(text.take(start.len() as int) =~= start);
    assert(text.subrange(start.len() as int, (start.len() + path.len()) as int) =~= path);
    assert(text.skip((start.len() + path.len()) as int) =~= end);
}

/// The message for a refused path says that it holds a NUL byte.
pub proof fn messages_for_refused_paths()
    ensures
        MountError::NulByte.text() == "Mount path contains a NUL byte"@,
{
}

} // verus!
