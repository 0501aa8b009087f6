use vstd::prelude::*;
use crate::blog_storage::{removed, upserted, BlogEntry, BlogStorage};

verus! {

/// A notification to connected clients.
#[derive(Clone, Copy, Debug, PartialEq, Eq, Structural)]
pub enum UpdateEvent {
    Reload,
}

/// The text carried by the server-sent event for `evt`.
pub fn sse_data(evt: UpdateEvent) -> (r: String)
    ensures
        r@ == "reload"@,
{
    proof {
        reveal_strlit("reload");
    }
    match evt {
        UpdateEvent::Reload => "reload".to_owned(),
    }
}

/// What a subscriber forwards for one received item: the event itself, or a
/// `Reload` after it lagged behind and missed `skipped` events.
pub fn event_or_resync(received: Result<UpdateEvent, u64>) -> (r: UpdateEvent)
    ensures
        match received {
            Ok(evt) => r == evt,
            Err(_) => r == UpdateEvent::Reload,
        },
{
    match received {
        Ok(evt) => evt,
        Err(_) => UpdateEvent::Reload,
    }
}

pub open spec fn ends_with_md(s: Seq<char>) -> bool {
    s.len() >= 3 && s.subrange(s.len() - 3, s.len() as int) == seq!['.', 'm', 'd']
}

pub open spec fn starts_with_underscore(s: Seq<char>) -> bool {
    s.len() > 0 && s[0] == '_'
}

/// A file name that is a post: a Markdown file not starting with `_`.
pub open spec fn eligible(s: Seq<char>) -> bool {
    ends_with_md(s) && !starts_with_underscore(s)
}

/// Whether `filename` ends with `.md`.
pub fn is_markdown_filename(filename: &str) -> (r: bool)
    ensures
        r == ends_with_md(filename@),
{
    let n = filename.unicode_len();
    if n < 3 {
        return false;
    }
    let a = filename.get_char(n - 3);
    let b = filename.get_char(n - 2);
    let c = filename.get_char(n - 1);
    let r = a == '.' && b == 'm' && c == 'd';
    let ghost tail = filename@.subrange(n - 3, n as int);
    assert(r ==> tail =~= seq!['.', 'm', 'd']);
    assert(tail == seq!['.', 'm', 'd'] ==> tail[0] == '.' && tail[1] == 'm' && tail[2] == 'd');
    r
}

/// Whether `filename` names a post.
pub fn is_valid_filename_entry(filename: &str) -> (r: bool)
    ensures
        r == eligible(filename@),
{
    if !is_markdown_filename(filename) {
        return false;
    }
    filename.get_char(0) != '_'
}

/// A file system event as reported by the watcher backend, reduced to what
/// the classification looks at.
#[derive(Clone, Copy, Debug, PartialEq, Eq, Structural)]
pub enum RawEvent {
    /// A regular file was created.
    CreateFile,
    /// Something else (a directory, a link) was created.
    CreateOther,
    /// A file was renamed to this path, inside the watched directory.
    RenameTo,
    /// A file's content changed.
    DataChange,
    /// A file's metadata changed.
    MetadataChange,
    /// A regular file was removed.
    RemoveFile,
    /// Any other event: directories, links, access, renames away.
    Other,
}

/// A classified change of one file.
#[derive(Clone, Copy, Debug, PartialEq, Eq, Structural)]
pub enum ChangeKind {
    Created,
    Modified,
    Removed,
}

pub open spec fn classified(raw: RawEvent, known: bool) -> Option<ChangeKind> {
    match raw {
        RawEvent::CreateFile => Some(ChangeKind::Created),
        RawEvent::RenameTo => Some(
            if known {
                ChangeKind::Modified
            } else {
                ChangeKind::Created
            },
        ),
        RawEvent::DataChange | RawEvent::MetadataChange => Some(ChangeKind::Modified),
        RawEvent::RemoveFile => Some(ChangeKind::Removed),
        RawEvent::CreateOther | RawEvent::Other => None,
    }
}

/// Classifies a raw event on a path; `known` tells whether the path's name
/// is already cached. A rename into the directory is one `Modified` when the
/// name was known, else one `Created`.
pub fn classify(raw: RawEvent, known: bool) -> (r: Option<ChangeKind>)
    ensures
        r == classified(raw, known),
        raw == RawEvent::RenameTo ==> (r == Some(ChangeKind::Modified) <==> known) && (r == Some(
            ChangeKind::Created,
        ) <==> !known),
{
    match raw {
        RawEvent::CreateFile => Some(ChangeKind::Created),
        RawEvent::RenameTo => {
            if known {
                Some(ChangeKind::Modified)
            } else {
                Some(ChangeKind::Created)
            }
        },
        RawEvent::DataChange => Some(ChangeKind::Modified),
        RawEvent::MetadataChange => Some(ChangeKind::Modified),
        RawEvent::RemoveFile => Some(ChangeKind::Removed),
        RawEvent::CreateOther => None,
        RawEvent::Other => None,
    }
}

/// What the cache does about a classified change.
#[derive(Clone, Copy, Debug, PartialEq, Eq, Structural)]
pub enum IngestAction {
    /// Nothing.
    Ignore,
    /// Parse the file, store the entry and broadcast a reload.
    Ingest,
    /// Drop the entry of that name.
    Remove,
}

pub open spec fn planned(kind: ChangeKind, name: Seq<char>, cached: bool) -> IngestAction {
    match kind {
        ChangeKind::Created => if eligible(name) {
            IngestAction::Ingest
        } else {
            IngestAction::Ignore
        },
        ChangeKind::Modified => if eligible(name) && cached {
            IngestAction::Ingest
        } else {
            IngestAction::Ignore
        },
        ChangeKind::Removed => if ends_with_md(name) {
            IngestAction::Remove
        } else {
            IngestAction::Ignore
        },
    }
}

/// Decides what a change of the file `name` calls for, given whether an
/// entry of that name is cached.
pub fn plan_change(kind: ChangeKind, name: &str, cached: bool) -> (r: IngestAction)
    ensures
        r == planned(kind, name@, cached),
{
    match kind {
        ChangeKind::Created => {
            if is_valid_filename_entry(name) {
                IngestAction::Ingest
            } else {
                IngestAction::Ignore
            }
        },
        ChangeKind::Modified => {
            if is_valid_filename_entry(name) && cached {
                IngestAction::Ingest
            } else {
                IngestAction::Ignore
            }
        },
        ChangeKind::Removed => {
            if is_markdown_filename(name) {
                IngestAction::Remove
            } else {
                IngestAction::Ignore
            }
        },
    }
}

/// Applies a change of the file `name` to the cache: a removal is done here;
/// an ingest is returned for the caller to parse the file and hand the
/// result to `commit_parsed`.
pub fn on_change(storage: &mut BlogStorage, kind: ChangeKind, name: &str) -> (r: IngestAction)
    requires
        old(storage).well_formed(),
    ensures
        r == planned(kind, name@, old(storage).by_name().contains_key(name@)),
        r == IngestAction::Remove ==> removed(*old(storage), *final(storage), name@),
        r != IngestAction::Remove ==> *final(storage) == *old(storage),
        final(storage).well_formed(),
{
    let cached = storage.contains_entry(name);
    let action = plan_change(kind, name, cached);
    if action == IngestAction::Remove {
        storage.remove_entry(name);
    }
    action
}

/// Why a post could not be read.
#[derive(Clone, Copy, Debug, PartialEq, Eq, Structural)]
pub enum ParseError {
    /// The file could not be read.
    Io,
    /// The front-matter block is missing or is not valid YAML.
    FrontMatter,
    /// A required front-matter field is missing or has the wrong type.
    Schema,
}

/// Stores the result of an ingest. Returns whether a reload is to be
/// broadcast: exactly when the file parsed.
pub fn commit_parsed(storage: &mut BlogStorage, parsed: Result<BlogEntry, ParseError>) -> (reload: bool)
    requires
        old(storage).well_formed(),
    ensures
        match parsed {
            Ok(e) => reload && upserted(*old(storage), *final(storage), e),
            Err(_) => !reload && *final(storage) == *old(storage),
        },
{
    match parsed {
        Ok(e) => {
            storage.try_store_entry(e);
            true
        },
        Err(_) => false,
    }
}

/// The cache after one file of the initial scan: a parsed post under an
/// eligible name is stored, anything else is skipped.
pub open spec fn load_step(m: Map<Seq<char>, BlogEntry>, r: Result<BlogEntry, ParseError>) -> Map<
    Seq<char>,
    BlogEntry,
> {
    match r {
        Ok(e) => if eligible(e.filename@) {
            m.insert(e.filename@, e)
        } else {
            m
        },
        Err(_) => m,
    }
}

pub open spec fn load_all(m: Map<Seq<char>, BlogEntry>, files: Seq<Result<BlogEntry, ParseError>>) -> Map<
    Seq<char>,
    BlogEntry,
>
    decreases files.len(),
{
    if files.len() == 0 {
        m
    } else {
        load_step(load_all(m, files.drop_last()), files.last())
    }
}

/// Fills the cache from the parse results of the files found at start-up,
/// in order.
pub fn add_most_recent_entries(storage: &mut BlogStorage, files: &Vec<Result<BlogEntry, ParseError>>)
    requires
        old(storage).well_formed(),
    ensures
        final(storage).well_formed(),
        final(storage).by_name() == load_all(old(storage).by_name(), files@),
        final(storage).max_recent() == old(storage).max_recent(),
        final(storage).base() == old(storage).base(),
{
    let ghost m0 = storage.by_name();
    let mut i: usize = 0;
    assert(files@.take(0) =~= Seq::<Result<BlogEntry, ParseError>>::empty());
    while i < files.len()
        invariant
            storage.well_formed(),
            i <= files@.len(),
            storage.by_name() == load_all(m0, files@.take(i as int)),
            storage.max_recent() == old(storage).max_recent(),
            storage.base() == old(storage).base(),
        decreases files@.len() - i,
    {
        assert(files@.take(i + 1).drop_last() =~= files@.take(i as int));
        match &files[i] {
            Ok(e) => {
                if is_valid_filename_entry(e.filename.as_str()) {
                    storage.try_store_entry(e.duplicate());
                }
            },
            Err(_) => {},
        }
        i = i + 1;
    }
    assert(files@.take(files@.len() as int) =~= files@);
}

/// Files waiting to be parsed, oldest first, each name at most once: a burst
/// of events on one file leaves a single parse, which reads the file as it is
/// when its turn comes.
pub struct PendingChanges {
    names: Vec<String>,
}

/// The queue `q` after an event on `name`.
pub open spec fn after_push(q: Seq<Seq<char>>, name: Seq<char>) -> Seq<Seq<char>> {
    if q.contains(name) {
        q
    } else {
        q.push(name)
    }
}

/// `new` is the queue `old` after an event on `name`.
pub open spec fn pushed(old: Seq<Seq<char>>, new: Seq<Seq<char>>, name: Seq<char>) -> bool {
    new == after_push(old, name)
}

/// The queue `q` after `n` events in a row on `name`.
pub open spec fn after_burst(q: Seq<Seq<char>>, name: Seq<char>, n: nat) -> Seq<Seq<char>>
    decreases n,
{
    if n == 0 {
        q
    } else {
        after_push(after_burst(q, name, (n - 1) as nat), name)
    }
}

pub open spec fn no_repeats(s: Seq<Seq<char>>) -> bool {
    forall|i: int, j: int| 0 <= i < j < s.len() ==> s[i] != s[j]
}

impl PendingChanges {
    pub closed spec fn queue(&self) -> Seq<Seq<char>> {
        self.names@.map_values(|n: String| n@)
    }

    pub fn new() -> (r: PendingChanges)
        ensures
            r.queue() == Seq::<Seq<char>>::empty(),
    {
        let r = PendingChanges { names: Vec::new() };
        assert(r.queue() =~= Seq::<Seq<char>>::empty());
        r
    }

    /// Queues `name` unless it is already waiting. Returns whether it was
    /// added.
    pub fn push(&mut self, name: &str) -> (added: bool)
        requires
            no_repeats(old(self).queue()),
        ensures
            no_repeats(final(self).queue()),
            added == !old(self).queue().contains(name@),
            pushed(old(self).queue(), final(self).queue(), name@),
    {
        let key = name.to_owned();
        let mut i: usize = 0;
        while i < self.names.len()
            invariant
                key@ == name@,
                no_repeats(self.queue()),
                i <= self.names@.len(),
                forall|j: int| 0 <= j < i ==> self.queue()[j] != name@,
            decreases self.names@.len() - i,
        {
            if self.names[i] == key {
                assert(self.queue()[i as int] == name@);
                return false;
            }
            i = i + 1;
        }
        let ghost q0 = self.queue();
        self.names.push(key);
        assert(self.queue() =~= q0.push(name@));
        proof {
            assert forall|j: int| 0 <= j < q0.len() implies q0[j] != name@ by {
                assert(self.queue()[j] == q0[j]);
            }
        }
        true
    }

    /// Takes the oldest waiting name.
    pub fn pop(&mut self) -> (r: Option<String>)
        requires
            no_repeats(old(self).queue()),
        ensures
            no_repeats(final(self).queue()),
            old(self).queue().len() == 0 ==> r is None && final(self).queue() == old(self).queue(),
            old(self).queue().len() > 0 ==> (r matches Some(n) && n@ == old(self).queue()[0]),
            old(self).queue().len() > 0 ==> final(self).queue() == old(self).queue().drop_first(),
    {
        if self.names.len() == 0 {
            return None;
        }
        let ghost q0 = self.queue();
        let n = self.names.remove(0);
        assert(self.queue() =~= q0.drop_first());
        Some(n)
    }

    pub fn len(&self) -> (r: usize)
        ensures
            r == self.queue().len(),
    {
        self.names.len()
    }
}

/// A burst of any number of events on one file leaves the queue as a single
/// event does: the file waits once.
pub proof fn lemma_burst_collapses(q: Seq<Seq<char>>, name: Seq<char>, n: nat)
    requires
        n >= 1,
    ensures
        after_burst(q, name, n) == after_push(q, name),
        after_push(q, name).contains(name),
    decreases n,
{
    if !q.contains(name) {
        assert(q.push(name)[q.len() as int] == name);
    }
    if n > 1 {
        lemma_burst_collapses(q, name, (n - 1) as nat);
        let p = after_push(q, name);
        assert(after_burst(q, name, n) == after_push(p, name));
    } else {
        assert(after_burst(q, name, 0) == q);
    }
}

/// The error of a front-matter block that did not deserialize: a block that
/// is a YAML mapping lacks or mistypes a field; anything else is no valid
/// front-matter.
pub fn front_matter_error(block_is_mapping: bool) -> (r: ParseError)
    ensures
        r == (if block_is_mapping {
            ParseError::Schema
        } else {
            ParseError::FrontMatter
        }),
{
    if block_is_mapping {
        ParseError::Schema
    } else {
        ParseError::FrontMatter
    }
}

} // verus!
