//! Finds out which files of a link are loaded, and resolves the symbols of
//! those that are. The objects that are not optional are loaded; a member of
//! an archive is loaded when a loaded file refers, not weakly, to a symbol
//! that it defines.

use crate::error::Error;
use crate::input::{Epilogue, Group, ParsedInput, ParsedInputObject, Prelude};
use crate::resolution::{
    file_at, file_outcome, file_processable, has_input, input_at, process_object, NotLoaded, ResolvedEpilogue,
    ResolvedFile, ResolvedGroup, ResolvedObject, SymbolsOutcome, UndefinedSymbol,
};
use crate::symbol_db::{FileId, SymbolDb, SymbolId, SymbolIdRange};
use vstd::prelude::*;

verus! {

/// Which files have been claimed for processing: a flag for each file of
/// each group.
pub type Claims = Vec<Vec<bool>>;

/// Whether `claims` has a flag for each file of `groups`.
pub open spec fn claims_fit(claims: Seq<Vec<bool>>, groups: Seq<Group>) -> bool {
    &&& claims.len() == groups.len()
    &&& forall|g: int| 0 <= g < groups.len() ==> (#[trigger] claims[g])@.len() == groups[g].files@.len()
}

/// Whether the file has been claimed.
pub open spec fn is_claimed(claims: Seq<Vec<bool>>, file_id: FileId) -> bool {
    claims[file_id.group as int]@[file_id.file as int]
}

/// How many of the first `limit` flags are not set.
pub open spec fn unclaimed_in(flags: Seq<bool>, limit: int) -> nat
    decreases limit,
{
    if limit <= 0 {
        0
    } else if flags[limit - 1] {
        unclaimed_in(flags, limit - 1)
    } else {
        unclaimed_in(flags, limit - 1) + 1
    }
}

/// How many files of the first `limit` groups have not been claimed.
pub open spec fn unclaimed(claims: Seq<Vec<bool>>, limit: int) -> nat
    decreases limit,
{
    if limit <= 0 {
        0
    } else {
        unclaimed(claims, limit - 1) + unclaimed_in(claims[limit - 1]@, claims[limit - 1]@.len() as int)
    }
}

/// Setting a flag that was not set leaves one flag less that is not set.
pub proof fn lemma_unclaimed_in(before: Seq<bool>, after: Seq<bool>, position: int, limit: int)
    requires
        0 <= position < before.len(),
        0 <= limit <= before.len(),
        !before[position],
        after == before.update(position, true),
    ensures
        unclaimed_in(before, limit) == unclaimed_in(after, limit) + if position < limit {
            1nat
        } else {
            0nat
        },
    decreases limit,
{
    if limit > 0 {
        lemma_unclaimed_in(before, after, position, limit - 1);
    }
}

/// Claiming a file that was not claimed leaves one file less that is not claimed.
pub proof fn lemma_unclaimed(before: Seq<Vec<bool>>, after: Seq<Vec<bool>>, file_id: FileId, limit: int)
    requires
        0 <= limit <= before.len(),
        before.len() == after.len(),
        file_id.group < before.len(),
        file_id.file < before[file_id.group as int]@.len(),
        !is_claimed(before, file_id),
        after[file_id.group as int]@ == before[file_id.group as int]@.update(file_id.file as int, true),
        forall|g: int| 0 <= g < before.len() && g != file_id.group ==> after[g]@ == before[g]@,
    ensures
        unclaimed(before, limit) == unclaimed(after, limit) + if file_id.group < limit {
            1nat
        } else {
            0nat
        },
    decreases limit,
{
    if limit > 0 {
        lemma_unclaimed(before, after, file_id, limit - 1);
        if limit - 1 == file_id.group {
            lemma_unclaimed_in(
                before[limit - 1]@,
                after[limit - 1]@,
                file_id.file as int,
                before[limit - 1]@.len() as int,
            );
        }
    }
}

/// Asks for the file `file_id` to be processed. If nobody has claimed the
/// file before, it is claimed now and appended to the work queue, and `true`
/// is returned: there is new work, for which a thread that waits may be
/// woken. Otherwise nothing changes. So a file enters the queue at most once.
pub fn request_file_id(claims: &mut Claims, work_queue: &mut Vec<FileId>, file_id: FileId) -> (claimed_now:
    bool)
    requires
        file_id.group < old(claims)@.len(),
        file_id.file < old(claims)@[file_id.group as int]@.len(),
    ensures
        claimed_now == !is_claimed(old(claims)@, file_id),
        is_claimed(final(claims)@, file_id),
        final(claims)@.len() == old(claims)@.len(),
        final(claims)@[file_id.group as int]@ == old(claims)@[file_id.group as int]@.update(
            file_id.file as int,
            true,
        ),
        forall|g: int|
            0 <= g < old(claims)@.len() && g != file_id.group ==> #[trigger] final(claims)@[g] == old(claims)@[g],
        final(work_queue)@ == if claimed_now {
            old(work_queue)@.push(file_id)
        } else {
            old(work_queue)@
        },
{
    if claims[file_id.group][file_id.file] {
        return false;
    }
    claims[file_id.group][file_id.file] = true;
    work_queue.push(file_id);
    true
}

/// What a thread does when it finds the work queue empty.
#[derive(Clone, Copy, Debug, PartialEq, Eq, Structural)]
pub enum WhenEmpty {
    /// Wait until woken.
    Park,
    /// Try to enter the list of idle threads.
    Register,
    /// Leave: there is no other thread that could bring new work.
    Exit,
}

/// What a thread does when it finds the work queue empty: one that has
/// entered the list of idle threads already waits; one that has not tries to
/// enter it; one that is alone leaves.
pub fn when_queue_empty(idle: bool, num_threads: usize) -> (r: WhenEmpty)
    ensures
        r == if idle {
            WhenEmpty::Park
        } else if num_threads > 1 {
            WhenEmpty::Register
        } else {
            WhenEmpty::Exit
        },
{
    if idle {
        WhenEmpty::Park
    } else if num_threads > 1 {
        WhenEmpty::Register
    } else {
        WhenEmpty::Exit
    }
}

/// What a thread does after it has tried to enter the list of idle threads.
#[derive(Clone, Copy, Debug, PartialEq, Eq, Structural)]
pub enum WhenRegistered {
    /// Look at the work queue once more, as an idle thread.
    LookAgain,
    /// All is done: say so, wake every thread of the list, and leave.
    Finish,
}

/// What a thread does after it has tried to enter the list of idle threads,
/// which has room for all threads but one. If there was no room, every other
/// thread is idle, so no work can come any more.
pub fn when_registered(entered: bool) -> (r: WhenRegistered)
    ensures
        r == if entered {
            WhenRegistered::LookAgain
        } else {
            WhenRegistered::Finish
        },
{
    if entered {
        WhenRegistered::LookAgain
    } else {
        WhenRegistered::Finish
    }
}

/// How many places the list of idle threads has: one for each thread but
/// one; none where there is only one thread, which needs no list.
pub fn idle_capacity(num_threads: usize) -> (r: Option<usize>)
    ensures
        r == if num_threads > 1 {
            Some((num_threads - 1) as usize)
        } else {
            None::<usize>
        },
{
    if num_threads > 1 {
        Some(num_threads - 1)
    } else {
        None
    }
}

/// The part of the table of definitions that belongs to the symbols of `obj`.
pub open spec fn own_definitions(definitions: Seq<SymbolId>, obj: &ParsedInputObject) -> Seq<SymbolId> {
    definitions.subrange(
        obj.symbol_id_range.start_symbol_id@,
        obj.symbol_id_range.start_symbol_id@ + obj.symbol_id_range.num_symbols,
    )
}

/// What processing the file `file_id` comes to, given the table of
/// definitions before any file was processed: the definitions of its own
/// symbols afterwards, the files that it asks for, the references that it
/// leaves undefined, and the error, if it fails. A file that is not an
/// object comes to nothing.
pub open spec fn outcome_of<'data>(
    symbol_db: &SymbolDb<'data>,
    groups: Seq<Group<'data>>,
    definitions: Seq<SymbolId>,
    file_id: FileId,
) -> SymbolsOutcome<'data> {
    match input_at(groups, file_id) {
        ParsedInput::Object(obj) => file_outcome(
            symbol_db,
            groups,
            file_id,
            SymbolsOutcome {
                definitions: own_definitions(definitions, &obj),
                requested: Seq::empty(),
                undefined: Seq::empty(),
                error: None,
            },
        ),
        _ => SymbolsOutcome {
            definitions: Seq::empty(),
            requested: Seq::empty(),
            undefined: Seq::empty(),
            error: None,
        },
    }
}

/// Whether the file is an object that is loaded in any case.
pub open spec fn is_root(groups: Seq<Group>, file_id: FileId) -> bool {
    &&& has_input(groups, file_id)
    &&& input_at(groups, file_id) is Object
    &&& !input_at(groups, file_id)->Object_0.optional
}

/// Whether `path` explains why its last file is processed: it starts with
/// an object that is loaded in any case, and each of its files asks for the
/// next one.
pub open spec fn is_path<'data>(
    symbol_db: &SymbolDb<'data>,
    groups: Seq<Group<'data>>,
    definitions: Seq<SymbolId>,
    path: Seq<FileId>,
) -> bool {
    &&& path.len() > 0
    &&& is_root(groups, path[0])
    &&& forall|i: int|
        0 <= i < path.len() - 1 ==> has_input(groups, #[trigger] path[i]) && outcome_of(
            symbol_db,
            groups,
            definitions,
            path[i],
        ).requested.contains(path[i + 1])
}

/// Whether the file is processed: it is an object that is loaded in any
/// case, or a file that is processed asks for it.
pub open spec fn is_reached<'data>(
    symbol_db: &SymbolDb<'data>,
    groups: Seq<Group<'data>>,
    definitions: Seq<SymbolId>,
    file_id: FileId,
) -> bool {
    exists|path: Seq<FileId>| #[trigger] is_path(symbol_db, groups, definitions, path) && path.last() == file_id
}

/// An object that is loaded in any case is processed.
pub proof fn lemma_root_is_reached<'data>(
    symbol_db: &SymbolDb<'data>,
    groups: Seq<Group<'data>>,
    definitions: Seq<SymbolId>,
    file_id: FileId,
)
    requires
        is_root(groups, file_id),
    ensures
        is_reached(symbol_db, groups, definitions, file_id),
{
    let path = seq![file_id];
    assert(is_path(symbol_db, groups, definitions, path) && path.last() == file_id);
}

/// Whether the symbols of the two objects have different numbers.
pub open spec fn ranges_apart(a: &ParsedInputObject, b: &ParsedInputObject) -> bool {
    a.symbol_id_range.start_symbol_id@ + a.symbol_id_range.num_symbols <= b.symbol_id_range.start_symbol_id@
        || b.symbol_id_range.start_symbol_id@ + b.symbol_id_range.num_symbols
        <= a.symbol_id_range.start_symbol_id@
}

/// Whether the files and the table of symbols belong together: the first
/// file holds the linker's own symbols; every object knows its place, has
/// its own range of symbol numbers within the table of definitions, and can
/// be processed; and every symbol belongs to a file of the groups.
#[verifier::opaque]
pub open spec fn inputs_fit<'data>(
    groups: Seq<Group<'data>>,
    symbol_db: &SymbolDb<'data>,
    definitions: Seq<SymbolId>,
) -> bool {
    &&& symbol_db.wf()
    &&& has_input(groups, FileId { group: 0, file: 0 })
    &&& input_at(groups, FileId { group: 0, file: 0 }) is Prelude
    &&& has_input(groups, symbol_db.epilogue_file_id)
    &&& forall|i: int|
        0 <= i < symbol_db.num_symbols() ==> has_input(groups, #[trigger] symbol_db.symbol_file_ids@[i])
    &&& forall|file_id: FileId|
        has_input(groups, file_id) && #[trigger] input_at(groups, file_id) is Object ==> {
            let obj = input_at(groups, file_id)->Object_0;
            &&& obj.file_id == file_id
            &&& obj.symbol_id_range.start_symbol_id@ + obj.symbol_id_range.num_symbols <= definitions.len()
            &&& file_processable(groups, file_id, own_definitions(definitions, &obj))
        }
    &&& forall|a: FileId, b: FileId|
        has_input(groups, a) && has_input(groups, b) && a != b && #[trigger] input_at(groups, a) is Object
            && #[trigger] input_at(groups, b) is Object ==> ranges_apart(
            &input_at(groups, a)->Object_0,
            &input_at(groups, b)->Object_0,
        )
}

/// What a file is before any file has been processed: an object has not
/// been loaded; the file with the linker's own symbols stands in as a file
/// without symbols that has not been loaded; the file with the symbols that
/// the linker adds at the end does not know its place yet.
pub open spec fn unresolved<'data>(input: ParsedInput<'data>) -> ResolvedFile<'data> {
    match input {
        ParsedInput::Prelude(_) => ResolvedFile::NotLoaded(
            NotLoaded { symbol_id_range: SymbolIdRange { start_symbol_id: SymbolId(0), num_symbols: 0 } },
        ),
        ParsedInput::Object(obj) => ResolvedFile::NotLoaded(NotLoaded { symbol_id_range: obj.symbol_id_range }),
        ParsedInput::Epilogue(epilogue) => ResolvedFile::Epilogue(
            ResolvedEpilogue {
                file_id: FileId { group: usize::MAX, file: usize::MAX },
                start_symbol_id: epilogue.start_symbol_id,
            },
        ),
    }
}

/// Whether some file of the first `limit` groups is an object.
pub open spec fn has_objects(groups: Seq<Group>) -> bool {
    exists|file_id: FileId| has_input(groups, file_id) && #[trigger] input_at(groups, file_id) is Object
}

/// The state at the start of resolution.
pub struct Start<'data> {
    /// Every file as it is before any file has been processed.
    pub resolved: Vec<ResolvedGroup<'data>>,
    /// The objects that are loaded in any case, in the order of the files.
    pub work_queue: Vec<FileId>,
    /// The files of the work queue are claimed, no other.
    pub claims: Claims,
    /// How many files are objects.
    pub num_objects: usize,
    /// The last file that holds symbols of the linker's own, if there is one.
    pub prelude: Option<&'data Prelude>,
}

/// The file of the groups at or after which no file before the file `f` of
/// the group `g` holds symbols of the linker's own: the last such file.
pub open spec fn last_prelude(groups: Seq<Group>, g: int, f: int) -> Option<FileId>
    decreases g, f,
{
    if g < 0 || f < 0 {
        None
    } else if f > 0 {
        if groups[g].files@[f - 1] is Prelude {
            Some(FileId { group: g as usize, file: (f - 1) as usize })
        } else {
            last_prelude(groups, g, f - 1)
        }
    } else if g > 0 {
        last_prelude(groups, g - 1, groups[g - 1].files@.len() as int)
    } else {
        None
    }
}

/// The objects among the files before the file `f` of the group `g` that
/// are loaded in any case, in the order of the files.
pub open spec fn roots_before(groups: Seq<Group>, g: int, f: int) -> Seq<FileId>
    decreases g, f,
{
    if g < 0 || f < 0 {
        Seq::empty()
    } else if f > 0 {
        let file_id = FileId { group: g as usize, file: (f - 1) as usize };
        if is_root(groups, file_id) {
            roots_before(groups, g, f - 1).push(file_id)
        } else {
            roots_before(groups, g, f - 1)
        }
    } else if g > 0 {
        roots_before(groups, g - 1, groups[g - 1].files@.len() as int)
    } else {
        Seq::empty()
    }
}

/// How many objects there are among the files before the file `f` of the group `g`.
pub open spec fn objects_before(groups: Seq<Group>, g: int, f: int) -> nat
    decreases g, f,
{
    if g < 0 || f < 0 {
        0
    } else if f > 0 {
        if groups[g].files@[f - 1] is Object {
            objects_before(groups, g, f - 1) + 1
        } else {
            objects_before(groups, g, f - 1)
        }
    } else if g > 0 {
        objects_before(groups, g - 1, groups[g - 1].files@.len() as int)
    } else {
        0
    }
}

/// The smaller of a number and the greatest machine number.
pub open spec fn capped(count: nat) -> usize {
    if count <= usize::MAX {
        count as usize
    } else {
        usize::MAX
    }
}

impl<'data> Start<'data> {
    /// Whether this is the state at the start of resolving `groups`.
    pub open spec fn starts(&self, groups: Seq<Group<'data>>) -> bool {
        let end = groups.len() as int;
        &&& self.resolved@.len() == groups.len()
        &&& forall|g: int|
            0 <= g < groups.len() ==> (#[trigger] self.resolved@[g]).files@.len() == groups[g].files@.len()
        &&& forall|g: int, f: int|
            0 <= g < groups.len() && 0 <= f < groups[g].files@.len() ==> #[trigger] self.resolved@[g].files@[f]
                == unresolved(groups[g].files@[f])
        &&& self.work_queue@ == roots_before(groups, end, 0)
        &&& claims_fit(self.claims@, groups)
        &&& forall|g: int, f: int|
            0 <= g < groups.len() && 0 <= f < groups[g].files@.len() ==> #[trigger] self.claims@[g]@[f]
                == is_root(groups, FileId { group: g as usize, file: f as usize })
        &&& self.num_objects == capped(objects_before(groups, end, 0))
        &&& match last_prelude(groups, end, 0) {
            Some(file_id) => self.prelude == Some(&input_at(groups, file_id)->Prelude_0),
            None => self.prelude is None,
        }
    }
}

/// Sets resolution up: no file has been loaded, and the objects that are
/// loaded in any case wait in the work queue.
pub fn start_resolution<'data>(groups: &'data [Group<'data>]) -> (start: Start<'data>)
    ensures
        start.starts(groups@),
{
    let mut resolved: Vec<ResolvedGroup<'data>> = Vec::new();
    let mut work_queue: Vec<FileId> = Vec::new();
    let mut claims: Claims = Vec::new();
    let mut num_objects: usize = 0;
    let mut prelude: Option<&'data Prelude> = None;
    let mut g: usize = 0;
    while g < groups.len()
        invariant
            g <= groups@.len(),
            resolved@.len() == g,
            claims@.len() == g,
            forall|i: int| 0 <= i < g ==> (#[trigger] resolved@[i]).files@.len() == groups@[i].files@.len(),
            forall|i: int| 0 <= i < g ==> (#[trigger] claims@[i])@.len() == groups@[i].files@.len(),
            forall|i: int, f: int|
                0 <= i < g && 0 <= f < groups@[i].files@.len() ==> #[trigger] resolved@[i].files@[f]
                    == unresolved(groups@[i].files@[f]),
            forall|i: int, f: int|
                0 <= i < g && 0 <= f < groups@[i].files@.len() ==> #[trigger] claims@[i]@[f] == is_root(
                    groups@,
                    FileId { group: i as usize, file: f as usize },
                ),
            work_queue@ == roots_before(groups@, g as int, 0),
            num_objects == capped(objects_before(groups@, g as int, 0)),
            match last_prelude(groups@, g as int, 0) {
                Some(file_id) => has_input(groups@, file_id) && input_at(groups@, file_id) is Prelude && prelude
                    == Some(&input_at(groups@, file_id)->Prelude_0),
                None => prelude is None,
            },
        decreases groups@.len() - g,
    {
        let group = &groups[g];
        let mut files: Vec<ResolvedFile<'data>> = Vec::new();
        let mut flags: Vec<bool> = Vec::new();
        let mut f: usize = 0;
        while f < group.files.len()
            invariant
                g < groups@.len(),
                *group == groups@[g as int],
                f <= group.files@.len(),
                files@.len() == f,
                flags@.len() == f,
                forall|k: int| 0 <= k < f ==> #[trigger] files@[k] == unresolved(group.files@[k]),
                forall|k: int|
                    0 <= k < f ==> #[trigger] flags@[k] == is_root(
                        groups@,
                        FileId { group: g, file: k as usize },
                    ),
                work_queue@ == roots_before(groups@, g as int, f as int),
                num_objects == capped(objects_before(groups@, g as int, f as int)),
                match last_prelude(groups@, g as int, f as int) {
                    Some(file_id) => has_input(groups@, file_id) && input_at(groups@, file_id) is Prelude
                        && prelude == Some(&input_at(groups@, file_id)->Prelude_0),
                    None => prelude is None,
                },
            decreases group.files@.len() - f,
        {
            let file_id = FileId::new(g, f);
            let mut claimed = false;
            let file = match &group.files[f] {
                ParsedInput::Prelude(s) => {
                    prelude = Some(s);
                    ResolvedFile::NotLoaded(NotLoaded { symbol_id_range: SymbolIdRange::prelude(0) })
                },
                ParsedInput::Object(s) => {
                    if !s.is_optional() {
                        work_queue.push(file_id);
                        claimed = true;
                    }
                    if num_objects < usize::MAX {
                        num_objects = num_objects + 1;
                    }
                    ResolvedFile::NotLoaded(NotLoaded { symbol_id_range: s.symbol_id_range })
                },
                ParsedInput::Epilogue(s) => ResolvedFile::Epilogue(
                    ResolvedEpilogue { file_id: FileId::uninitialised(), start_symbol_id: s.start_symbol_id },
                ),
            };
            files.push(file);
            flags.push(claimed);
            f = f + 1;
        }
        resolved.push(ResolvedGroup { files });
        claims.push(flags);
        g = g + 1;
    }
    Start { resolved, work_queue, claims, num_objects, prelude }
}

/// The table of definitions with the part that belongs to the symbols of
/// `obj` replaced by `own`.
pub open spec fn with_own_definitions(definitions: Seq<SymbolId>, obj: &ParsedInputObject, own: Seq<SymbolId>) -> Seq<
    SymbolId,
> {
    definitions.subrange(0, obj.symbol_id_range.start_symbol_id@) + own + definitions.subrange(
        obj.symbol_id_range.start_symbol_id@ + obj.symbol_id_range.num_symbols,
        definitions.len() as int,
    )
}

/// Processes the file `file_id` with the part of the table of definitions
/// that belongs to its symbols.
pub fn process_file<'data>(
    file_id: FileId,
    definitions: &mut Vec<SymbolId>,
    groups: &'data [Group<'data>],
    symbol_db: &SymbolDb<'data>,
    requested_files: &mut Vec<FileId>,
    undefined_symbols_out: &mut Vec<UndefinedSymbol<'data>>,
    loaded: &mut Vec<ResolvedObject<'data>>,
) -> (r: Result<(), Error>)
    requires
        symbol_db.wf(),
        has_input(groups@, file_id),
        input_at(groups@, file_id) is Object ==> {
            let obj = input_at(groups@, file_id)->Object_0;
            &&& obj.symbol_id_range.start_symbol_id@ + obj.symbol_id_range.num_symbols <= old(definitions)@.len()
            &&& file_processable(groups@, file_id, own_definitions(old(definitions)@, &obj))
        },
    ensures
        final(definitions)@.len() == old(definitions)@.len(),
        match input_at(groups@, file_id) {
            ParsedInput::Object(obj) => {
                let outcome = file_outcome(
                    symbol_db,
                    groups@,
                    file_id,
                    SymbolsOutcome {
                        definitions: own_definitions(old(definitions)@, &obj),
                        requested: old(requested_files)@,
                        undefined: old(undefined_symbols_out)@,
                        error: None,
                    },
                );
                &&& final(definitions)@ == with_own_definitions(old(definitions)@, &obj, outcome.definitions)
                &&& outcome.definitions.len() == obj.symbol_id_range.num_symbols
                &&& final(requested_files)@ == outcome.requested
                &&& final(undefined_symbols_out)@ == outcome.undefined
                &&& match outcome.error {
                    Some(e) => r == Err::<(), Error>(e) && final(loaded)@ == old(loaded)@,
                    None => {
                        &&& r is Ok
                        &&& final(loaded)@.len() == old(loaded)@.len() + 1
                        &&& final(loaded)@.drop_last() == old(loaded)@
                        &&& final(loaded)@.last().is_loaded_from(
                            &groups@[file_id.group as int].files@[file_id.file as int]->Object_0,
                            symbol_db.args.strip_debug,
                        )
                    },
                }
            },
            _ => {
                &&& r is Ok
                &&& final(definitions)@ == old(definitions)@
                &&& final(requested_files)@ == old(requested_files)@
                &&& final(undefined_symbols_out)@ == old(undefined_symbols_out)@
                &&& final(loaded)@ == old(loaded)@
            },
        },
{
    let (start, count) = match &groups[file_id.group()].files[file_id.file()] {
        ParsedInput::Object(obj) => (obj.symbol_id_range.start_symbol_id.as_usize(), obj.symbol_id_range.len()),
        _ => (0, 0),
    };
    let ghost before = definitions@;
    let (_, rest) = definitions.as_mut_slice().split_at_mut(start);
    let (own, _) = rest.split_at_mut(count);
    let ghost own_before = own@;
    proof {
        assert(own_before =~= before.subrange(start as int, start + count));
    }
    let r = process_object(file_id, own, groups, symbol_db, requested_files, undefined_symbols_out, loaded);
    proof {
        match input_at(groups@, file_id) {
            ParsedInput::Object(obj) => {
                let begin = SymbolsOutcome {
                    definitions: own_definitions(before, &obj),
                    requested: old(requested_files)@,
                    undefined: old(undefined_symbols_out)@,
                    error: None,
                };
                crate::resolution::lemma_after_symbols_len(
                    symbol_db,
                    &obj,
                    begin,
                    crate::resolution::symbols_to_resolve(&obj, begin.definitions.len() as int),
                );
            },
            _ => {
            },
        }
    }
    r
}

/// The references that the first `k` files of `order` leave undefined, file by file.
pub open spec fn undefined_through<'data>(
    symbol_db: &SymbolDb<'data>,
    groups: Seq<Group<'data>>,
    definitions: Seq<SymbolId>,
    order: Seq<FileId>,
    k: int,
) -> Seq<UndefinedSymbol<'data>>
    decreases k,
{
    if k <= 0 {
        Seq::empty()
    } else {
        undefined_through(symbol_db, groups, definitions, order, k - 1) + outcome_of(
            symbol_db,
            groups,
            definitions,
            order[k - 1],
        ).undefined
    }
}

/// The error of the first of the first `k` files of `order` that fails, if one does.
pub open spec fn first_error_through<'data>(
    symbol_db: &SymbolDb<'data>,
    groups: Seq<Group<'data>>,
    definitions: Seq<SymbolId>,
    order: Seq<FileId>,
    k: int,
) -> Option<Error>
    decreases k,
{
    if k <= 0 {
        None
    } else {
        match first_error_through(symbol_db, groups, definitions, order, k - 1) {
            Some(e) => Some(e),
            None => outcome_of(symbol_db, groups, definitions, order[k - 1]).error,
        }
    }
}

/// What the first `k` files of an order come to does not depend on the
/// files that follow them.
pub proof fn lemma_through_prefix<'data>(
    symbol_db: &SymbolDb<'data>,
    groups: Seq<Group<'data>>,
    definitions: Seq<SymbolId>,
    a: Seq<FileId>,
    b: Seq<FileId>,
    k: int,
)
    requires
        0 <= k <= a.len() <= b.len(),
        forall|i: int| 0 <= i < k ==> a[i] == b[i],
    ensures
        undefined_through(symbol_db, groups, definitions, a, k) == undefined_through(
            symbol_db,
            groups,
            definitions,
            b,
            k,
        ),
        first_error_through(symbol_db, groups, definitions, a, k) == first_error_through(
            symbol_db,
            groups,
            definitions,
            b,
            k,
        ),
    decreases k,
{
    if k > 0 {
        lemma_through_prefix(symbol_db, groups, definitions, a, b, k - 1);
    }
}

/// Whether one of the first `head` files of `order` is `file_id`.
pub open spec fn is_processed(order: Seq<FileId>, head: int, file_id: FileId) -> bool {
    exists|i: int| 0 <= i < head && i < order.len() && #[trigger] order[i] == file_id
}

/// Whether `file` is what becomes of `input`: an object that has been
/// loaded, if `loaded` says so, and else the file as it is before any file
/// has been processed.
pub open spec fn is_resolved_as<'data>(
    file: ResolvedFile<'data>,
    input: ParsedInput<'data>,
    loaded: bool,
    strip_debug: bool,
) -> bool {
    if loaded && input is Object {
        file matches ResolvedFile::Object(resolved) && resolved.is_loaded_from(&input->Object_0, strip_debug)
    } else {
        file == unresolved(input)
    }
}

/// Whether the symbol with the number `index` belongs to one of the first
/// `head` files of `order`.
pub open spec fn is_covered(groups: Seq<Group>, order: Seq<FileId>, head: int, index: int) -> bool {
    exists|i: int|
        0 <= i < head && i < order.len() && input_at(groups, #[trigger] order[i]) is Object && input_at(
            groups,
            order[i],
        )->Object_0.symbol_id_range.holds(index)
}

/// The state of resolution while the work queue is worked off: the first
/// `head` files of the queue have been processed.
pub struct Work<'data> {
    pub resolved: Vec<ResolvedGroup<'data>>,
    pub work_queue: Vec<FileId>,
    pub head: usize,
    pub claims: Claims,
    pub definitions: Vec<SymbolId>,
    pub undefined_symbols: Vec<UndefinedSymbol<'data>>,
    pub first_error: Option<Error>,
}

impl<'data> Work<'data> {
    /// Whether the queue is in order: it holds files of the groups, each
    /// once, that are processed for a reason; the claimed files are those of
    /// the queue, among them the objects that are loaded in any case; and the
    /// queue holds every file that one of its first `closed` files asks for.
    #[verifier::opaque]
    pub open spec fn queue_ok(
        &self,
        symbol_db: &SymbolDb<'data>,
        groups: Seq<Group<'data>>,
        initial: Seq<SymbolId>,
        closed: int,
    ) -> bool {
        let order = self.work_queue@;
        let head = self.head as int;
        &&& inputs_fit(groups, symbol_db, initial)
        &&& claims_fit(self.claims@, groups)
        &&& head <= order.len()
        &&& order.no_duplicates()
        &&& forall|i: int|
            0 <= i < order.len() ==> has_input(groups, #[trigger] order[i]) && is_reached(
                symbol_db,
                groups,
                initial,
                order[i],
            )
        &&& forall|file_id: FileId|
            has_input(groups, file_id) ==> (is_claimed(self.claims@, file_id) <==> #[trigger] order.contains(
                file_id,
            ))
        &&& forall|file_id: FileId| #[trigger] is_root(groups, file_id) ==> order.contains(file_id)
        &&& forall|i: int, file_id: FileId|
            0 <= i < closed && i < order.len() && #[trigger] outcome_of(
                symbol_db,
                groups,
                initial,
                order[i],
            ).requested.contains(file_id) ==> order.contains(file_id)
    }

    /// Whether the definitions are in order: the symbols of each object that
    /// has been processed have the definitions that processing it gives
    /// them, and every other definition is as it was.
    #[verifier::opaque]
    pub open spec fn definitions_ok(
        &self,
        symbol_db: &SymbolDb<'data>,
        groups: Seq<Group<'data>>,
        initial: Seq<SymbolId>,
    ) -> bool {
        let order = self.work_queue@;
        let head = self.head as int;
        &&& self.definitions@.len() == initial.len()
        &&& forall|file_id: FileId|
            has_input(groups, file_id) && #[trigger] input_at(groups, file_id) is Object ==> own_definitions(
                self.definitions@,
                &input_at(groups, file_id)->Object_0,
            ) == if is_processed(order, head, file_id) {
                outcome_of(symbol_db, groups, initial, file_id).definitions
            } else {
                own_definitions(initial, &input_at(groups, file_id)->Object_0)
            }
        &&& forall|index: int|
            0 <= index < initial.len() && !is_covered(groups, order, head, index)
                ==> #[trigger] self.definitions@[index]
                == initial[index]
    }

    /// Whether the files are in order: the objects that have been processed
    /// without error have been loaded, and every other file is as it is before
    /// any file has been processed.
    #[verifier::opaque]
    pub open spec fn files_ok(
        &self,
        symbol_db: &SymbolDb<'data>,
        groups: Seq<Group<'data>>,
        initial: Seq<SymbolId>,
    ) -> bool {
        let order = self.work_queue@;
        let head = self.head as int;
        &&& self.resolved@.len() == groups.len()
        &&& forall|g: int|
            0 <= g < groups.len() ==> (#[trigger] self.resolved@[g]).files@.len() == groups[g].files@.len()
        &&& forall|file_id: FileId|
            has_input(groups, file_id) ==> is_resolved_as(
                #[trigger] file_at(self.resolved@, file_id),
                input_at(groups, file_id),
                is_processed(order, head, file_id) && outcome_of(symbol_db, groups, initial, file_id).error is None,
                symbol_db.args.strip_debug,
            )
    }

    /// Whether the undefined references and the first error are those of
    /// the files that have been processed.
    #[verifier::opaque]
    pub open spec fn totals_ok(
        &self,
        symbol_db: &SymbolDb<'data>,
        groups: Seq<Group<'data>>,
        initial: Seq<SymbolId>,
    ) -> bool {
        let order = self.work_queue@;
        let head = self.head as int;
        &&& self.undefined_symbols@ == undefined_through(symbol_db, groups, initial, order, head)
        &&& self.first_error == first_error_through(symbol_db, groups, initial, order, head)
    }

    /// Whether the state is consistent with the files, the table of symbols
    /// and the table of definitions before any file was processed, and the
    /// queue holds every file that one of its first `closed` files asks for.
    #[verifier::opaque]
    pub open spec fn consistent(
        &self,
        symbol_db: &SymbolDb<'data>,
        groups: Seq<Group<'data>>,
        initial: Seq<SymbolId>,
        closed: int,
    ) -> bool {
        &&& self.queue_ok(symbol_db, groups, initial, closed)
        &&& self.definitions_ok(symbol_db, groups, initial)
        &&& self.files_ok(symbol_db, groups, initial)
        &&& self.totals_ok(symbol_db, groups, initial)
    }

    /// How much is left to do at most: the files of the queue that have not
    /// been processed, and the files that may still enter the queue.
    pub open spec fn remaining(&self) -> int {
        unclaimed(self.claims@, self.claims@.len() as int) + self.work_queue@.len() - self.head
    }
}

/// A file that a reached file asks for is reached.
pub proof fn lemma_requested_is_reached<'data>(
    symbol_db: &SymbolDb<'data>,
    groups: Seq<Group<'data>>,
    initial: Seq<SymbolId>,
    from: FileId,
    file_id: FileId,
)
    requires
        has_input(groups, from),
        is_reached(symbol_db, groups, initial, from),
        outcome_of(symbol_db, groups, initial, from).requested.contains(file_id),
    ensures
        is_reached(symbol_db, groups, initial, file_id),
{
    let path = choose|path: Seq<FileId>| #[trigger] is_path(symbol_db, groups, initial, path) && path.last() == from;
    let longer = path.push(file_id);
    assert(is_path(symbol_db, groups, initial, longer) && longer.last() == file_id);
}

/// Every file that the file `file_id` asks for is a file of the groups.
pub proof fn lemma_requests_are_inputs<'data>(
    symbol_db: &SymbolDb<'data>,
    groups: Seq<Group<'data>>,
    initial: Seq<SymbolId>,
    file_id: FileId,
)
    requires
        inputs_fit(groups, symbol_db, initial),
        has_input(groups, file_id),
    ensures
        forall|i: int|
            0 <= i < outcome_of(symbol_db, groups, initial, file_id).requested.len() ==> has_input(
                groups,
                #[trigger] outcome_of(symbol_db, groups, initial, file_id).requested[i],
            ),
{
    reveal(inputs_fit);
    match input_at(groups, file_id) {
        ParsedInput::Object(obj) => {
            let start = SymbolsOutcome {
                definitions: own_definitions(initial, &obj),
                requested: Seq::empty(),
                undefined: Seq::empty(),
                error: None,
            };
            crate::resolution::lemma_requested_known(
                symbol_db,
                &obj,
                start,
                crate::resolution::symbols_to_resolve(&obj, start.definitions.len() as int),
                |f: FileId| has_input(groups, f),
            );
        },
        _ => {},
    }
}

/// The number of files that have not been claimed depends on the flags only.
pub proof fn lemma_unclaimed_same(a: Seq<Vec<bool>>, b: Seq<Vec<bool>>, limit: int)
    requires
        0 <= limit <= a.len(),
        a.len() == b.len(),
        forall|g: int| 0 <= g < a.len() ==> (#[trigger] a[g])@ == b[g]@,
    ensures
        unclaimed(a, limit) == unclaimed(b, limit),
    decreases limit,
{
    if limit > 0 {
        lemma_unclaimed_same(a, b, limit - 1);
    }
}

/// Whether `after` is `before` after the file `file_id` has been asked for.
pub open spec fn is_after_request(before: Work, after: Work, file_id: FileId) -> bool {
    &&& after.resolved == before.resolved
    &&& after.head == before.head
    &&& after.definitions == before.definitions
    &&& after.undefined_symbols == before.undefined_symbols
    &&& after.first_error == before.first_error
    &&& after.claims@.len() == before.claims@.len()
    &&& after.claims@[file_id.group as int]@ == before.claims@[file_id.group as int]@.update(
        file_id.file as int,
        true,
    )
    &&& forall|g: int|
        0 <= g < before.claims@.len() && g != file_id.group ==> #[trigger] after.claims@[g] == before.claims@[g]
    &&& after.work_queue@ == if is_claimed(before.claims@, file_id) {
        before.work_queue@
    } else {
        before.work_queue@.push(file_id)
    }
}

/// What is known of the first files of a queue stays so when the queue grows.
proof fn lemma_same_prefix(groups: Seq<Group>, before: Seq<FileId>, after: Seq<FileId>, head: int)
    requires
        0 <= head <= before.len() <= after.len(),
        forall|i: int| 0 <= i < before.len() ==> before[i] == after[i],
    ensures
        forall|other: FileId| is_processed(after, head, other) == is_processed(before, head, other),
        forall|index: int| is_covered(groups, after, head, index) == is_covered(groups, before, head, index),
        forall|other: FileId| before.contains(other) ==> after.contains(other),
{
}

/// Asking for a file that a processed file asks for keeps the state
/// consistent and leaves as much to do as before.
proof fn lemma_request_keeps_consistent<'data>(
    before: Work<'data>,
    after: Work<'data>,
    symbol_db: &SymbolDb<'data>,
    groups: Seq<Group<'data>>,
    initial: Seq<SymbolId>,
    closed: int,
    file_id: FileId,
)
    requires
        before.consistent(symbol_db, groups, initial, closed),
        closed <= before.work_queue@.len(),
        has_input(groups, file_id),
        is_reached(symbol_db, groups, initial, file_id),
        is_after_request(before, after, file_id),
    ensures
        after.consistent(symbol_db, groups, initial, closed),
        after.remaining() == before.remaining(),
        after.work_queue@.contains(file_id),
        before.work_queue@.len() <= after.work_queue@.len(),
        forall|other: FileId| before.work_queue@.contains(other) ==> after.work_queue@.contains(other),
{
    reveal(Work::consistent);
    reveal(Work::queue_ok);
    reveal(Work::definitions_ok);
    reveal(Work::files_ok);
    reveal(Work::totals_ok);
    let order = after.work_queue@;
    let head = after.head as int;
    if !is_claimed(before.claims@, file_id) {
        lemma_unclaimed(before.claims@, after.claims@, file_id, before.claims@.len() as int);
        assert(!before.work_queue@.contains(file_id));
        assert(order[order.len() - 1] == file_id);
    } else {
        assert(after.claims@[file_id.group as int]@ =~= before.claims@[file_id.group as int]@);
        lemma_unclaimed_same(before.claims@, after.claims@, before.claims@.len() as int);
    }
    lemma_same_prefix(groups, before.work_queue@, order, head);
    lemma_through_prefix(symbol_db, groups, initial, before.work_queue@, order, head);
    assert forall|other: FileId| has_input(groups, other) implies (is_claimed(after.claims@, other)
        <==> #[trigger] order.contains(
        other,
    )) by {
        if other != file_id {
            if order.contains(other) {
                let i = choose|i: int| 0 <= i < order.len() && order[i] == other;
            }
            if before.work_queue@.contains(other) {
            }
        }
    }
}

/// Whether `after` is `before` after the next file of the queue has been processed.
pub open spec fn is_after_processing<'data>(
    before: Work<'data>,
    after: Work<'data>,
    symbol_db: &SymbolDb<'data>,
    groups: Seq<Group<'data>>,
) -> bool {
    let file_id = before.work_queue@[before.head as int];
    let outcome = outcome_of(symbol_db, groups, before.definitions@, file_id);
    &&& after.head == before.head + 1
    &&& after.work_queue == before.work_queue
    &&& after.claims == before.claims
    &&& after.undefined_symbols@ == before.undefined_symbols@ + outcome.undefined
    &&& after.first_error == match before.first_error {
        Some(e) => Some(e),
        None => outcome.error,
    }
    &&& after.definitions@ == if input_at(groups, file_id) is Object {
        with_own_definitions(before.definitions@, &input_at(groups, file_id)->Object_0, outcome.definitions)
    } else {
        before.definitions@
    }
    &&& input_at(groups, file_id) is Object ==> outcome.definitions.len() == input_at(
        groups,
        file_id,
    )->Object_0.symbol_id_range.num_symbols
    &&& after.resolved@.len() == before.resolved@.len()
    &&& forall|g: int|
        0 <= g < before.resolved@.len() ==> (#[trigger] after.resolved@[g]).files@.len()
            == before.resolved@[g].files@.len()
    &&& forall|other: FileId|
        has_input(groups, other) && other != file_id ==> #[trigger] file_at(after.resolved@, other) == file_at(
            before.resolved@,
            other,
        )
    &&& if input_at(groups, file_id) is Object && outcome.error is None {
        file_at(after.resolved@, file_id) matches ResolvedFile::Object(resolved) && resolved.is_loaded_from(
            &input_at(groups, file_id)->Object_0,
            symbol_db.args.strip_debug,
        )
    } else {
        file_at(after.resolved@, file_id) == file_at(before.resolved@, file_id)
    }
}

/// Processing the next file of the queue keeps the queue in order.
proof fn lemma_processing_keeps_queue<'data>(
    before: Work<'data>,
    after: Work<'data>,
    symbol_db: &SymbolDb<'data>,
    groups: Seq<Group<'data>>,
    initial: Seq<SymbolId>,
)
    requires
        before.queue_ok(symbol_db, groups, initial, before.head as int),
        before.head < before.work_queue@.len(),
        after.head == before.head + 1,
        after.work_queue == before.work_queue,
        after.claims == before.claims,
    ensures
        after.queue_ok(symbol_db, groups, initial, before.head as int),
        after.remaining() == before.remaining() - 1,
        before.work_queue@.no_duplicates(),
        has_input(groups, before.work_queue@[before.head as int]),
{
    reveal(Work::queue_ok);
}

/// Processing the next file of the queue keeps the definitions in order.
proof fn lemma_processing_keeps_definitions<'data>(
    before: Work<'data>,
    after: Work<'data>,
    symbol_db: &SymbolDb<'data>,
    groups: Seq<Group<'data>>,
    initial: Seq<SymbolId>,
)
    requires
        inputs_fit(groups, symbol_db, initial),
        before.definitions_ok(symbol_db, groups, initial),
        before.head < before.work_queue@.len(),
        before.work_queue@.no_duplicates(),
        has_input(groups, before.work_queue@[before.head as int]),
        is_after_processing(before, after, symbol_db, groups),
    ensures
        after.definitions_ok(symbol_db, groups, initial),
        outcome_of(symbol_db, groups, before.definitions@, before.work_queue@[before.head as int])
            == outcome_of(symbol_db, groups, initial, before.work_queue@[before.head as int]),
{
    reveal(Work::definitions_ok);
    reveal(inputs_fit);
    let order = before.work_queue@;
    let head = before.head as int;
    let file_id = order[head];
    let outcome = outcome_of(symbol_db, groups, before.definitions@, file_id);
    if input_at(groups, file_id) is Object {
        let obj = input_at(groups, file_id)->Object_0;
        assert(own_definitions(after.definitions@, &obj) =~= outcome.definitions);
        assert forall|other: FileId|
            has_input(groups, other) && #[trigger] input_at(groups, other) is Object && other
                != file_id implies own_definitions(after.definitions@, &input_at(groups, other)->Object_0)
            == own_definitions(before.definitions@, &input_at(groups, other)->Object_0) by {
        }
    }
}

/// Processing the next file of the queue keeps the files in order.
proof fn lemma_processing_keeps_files<'data>(
    before: Work<'data>,
    after: Work<'data>,
    symbol_db: &SymbolDb<'data>,
    groups: Seq<Group<'data>>,
    initial: Seq<SymbolId>,
)
    requires
        before.files_ok(symbol_db, groups, initial),
        before.head < before.work_queue@.len(),
        before.work_queue@.no_duplicates(),
        has_input(groups, before.work_queue@[before.head as int]),
        is_after_processing(before, after, symbol_db, groups),
        outcome_of(symbol_db, groups, before.definitions@, before.work_queue@[before.head as int])
            == outcome_of(symbol_db, groups, initial, before.work_queue@[before.head as int]),
    ensures
        after.files_ok(symbol_db, groups, initial),
{
    reveal(Work::files_ok);
    let head = before.head as int;
}

/// Processing the next file of the queue keeps the state consistent, but
/// for the files that the file asks for, and leaves less to do.
proof fn lemma_processing_keeps_consistent<'data>(
    before: Work<'data>,
    after: Work<'data>,
    symbol_db: &SymbolDb<'data>,
    groups: Seq<Group<'data>>,
    initial: Seq<SymbolId>,
)
    requires
        before.consistent(symbol_db, groups, initial, before.head as int),
        before.head < before.work_queue@.len(),
        is_after_processing(before, after, symbol_db, groups),
    ensures
        after.consistent(symbol_db, groups, initial, before.head as int),
        after.remaining() == before.remaining() - 1,
        outcome_of(symbol_db, groups, before.definitions@, before.work_queue@[before.head as int])
            == outcome_of(symbol_db, groups, initial, before.work_queue@[before.head as int]),
{
    reveal(Work::consistent);
    lemma_processing_keeps_queue(before, after, symbol_db, groups, initial);
    assert(inputs_fit(groups, symbol_db, initial)) by {
        reveal(Work::queue_ok);
    }
    lemma_processing_keeps_definitions(before, after, symbol_db, groups, initial);
    lemma_processing_keeps_files(before, after, symbol_db, groups, initial);
    assert(after.totals_ok(symbol_db, groups, initial)) by {
        reveal(Work::totals_ok);
    }
}

/// When every file of the queue has been processed, the queue holds every
/// file of a path that explains why a file is processed.
proof fn lemma_path_in_queue<'data>(
    work: Work<'data>,
    symbol_db: &SymbolDb<'data>,
    groups: Seq<Group<'data>>,
    initial: Seq<SymbolId>,
    path: Seq<FileId>,
    i: int,
)
    requires
        work.consistent(symbol_db, groups, initial, work.head as int),
        work.head == work.work_queue@.len(),
        is_path(symbol_db, groups, initial, path),
        0 <= i < path.len(),
    ensures
        work.work_queue@.contains(path[i]),
    decreases i,
{
    reveal(Work::consistent);
    reveal(Work::queue_ok);
    if i > 0 {
        lemma_path_in_queue(work, symbol_db, groups, initial, path, i - 1);
        let order = work.work_queue@;
        let k = choose|k: int| 0 <= k < order.len() && order[k] == path[i - 1];
    }
}

/// What processing a file comes to depends on the table of symbols only in
/// the global names, the files of the symbols, and the arguments.
pub proof fn lemma_same_outcome<'data>(
    a: &SymbolDb<'data>,
    b: &SymbolDb<'data>,
    groups: Seq<Group<'data>>,
    initial: Seq<SymbolId>,
    file_id: FileId,
)
    requires
        crate::resolution::same_lookup(a, b),
    ensures
        outcome_of(a, groups, initial, file_id) == outcome_of(b, groups, initial, file_id),
{
    match input_at(groups, file_id) {
        ParsedInput::Object(obj) => {
            let start = SymbolsOutcome {
                definitions: own_definitions(initial, &obj),
                requested: Seq::empty(),
                undefined: Seq::empty(),
                error: None,
            };
            crate::resolution::lemma_after_symbols_same(
                a,
                b,
                &obj,
                start,
                crate::resolution::symbols_to_resolve(&obj, start.definitions.len() as int),
            );
        },
        _ => {},
    }
}

/// Which files are processed depends on the table of symbols only in the
/// global names, the files of the symbols, and the arguments.
pub proof fn lemma_same_reach<'data>(
    a: &SymbolDb<'data>,
    b: &SymbolDb<'data>,
    groups: Seq<Group<'data>>,
    initial: Seq<SymbolId>,
    file_id: FileId,
)
    requires
        crate::resolution::same_lookup(a, b),
        is_reached(a, groups, initial, file_id),
    ensures
        is_reached(b, groups, initial, file_id),
{
    let path = choose|path: Seq<FileId>| #[trigger] is_path(a, groups, initial, path) && path.last() == file_id;
    assert forall|i: int| 0 <= i < path.len() - 1 implies has_input(groups, #[trigger] path[i]) && outcome_of(
        b,
        groups,
        initial,
        path[i],
    ).requested.contains(path[i + 1]) by {
        lemma_same_outcome(a, b, groups, initial, path[i]);
    }
    assert(is_path(b, groups, initial, path) && path.last() == file_id);
}

/// Whether the positions of the files are machine numbers.
pub open spec fn is_countable(groups: Seq<Group>) -> bool {
    &&& groups.len() <= usize::MAX
    &&& forall|g: int| 0 <= g < groups.len() ==> (#[trigger] groups[g]).files@.len() <= usize::MAX
}

/// Whether the file `file_id` comes before the file `f` of the group `g`.
pub open spec fn is_before(file_id: FileId, g: int, f: int) -> bool {
    file_id.group < g || (file_id.group == g && file_id.file < f)
}

/// The objects that are loaded in any case are listed once each.
pub proof fn lemma_roots_before(groups: Seq<Group>, g: int, f: int)
    requires
        is_countable(groups),
        0 <= g < groups.len() && 0 <= f <= groups[g].files@.len() || g == groups.len() && f == 0,
    ensures
        roots_before(groups, g, f).no_duplicates(),
        forall|file_id: FileId|
            #[trigger] roots_before(groups, g, f).contains(file_id) <==> is_root(groups, file_id) && is_before(
                file_id,
                g,
                f,
            ),
    decreases g, f,
{
    if f > 0 {
        lemma_roots_before(groups, g, f - 1);
        let before = roots_before(groups, g, f - 1);
        let new_id = FileId { group: g as usize, file: (f - 1) as usize };
        let now = roots_before(groups, g, f);
        if is_root(groups, new_id) {
            assert(!before.contains(new_id));
            assert forall|file_id: FileId| #[trigger] now.contains(file_id) <==> is_root(groups, file_id)
                && is_before(file_id, g, f) by {
                if now.contains(file_id) {
                    let i = choose|i: int| 0 <= i < now.len() && now[i] == file_id;
                    if i < before.len() {
                        assert(before.contains(file_id));
                    }
                }
                if is_root(groups, file_id) && is_before(file_id, g, f) {
                    if file_id == new_id {
                        assert(now[now.len() - 1] == file_id);
                    } else {
                        assert(before.contains(file_id));
                        let i = choose|i: int| 0 <= i < before.len() && before[i] == file_id;
                        assert(now[i] == file_id);
                    }
                }
            }
        }
    } else if g > 0 {
        lemma_roots_before(groups, g - 1, groups[g - 1].files@.len() as int);
    }
}

/// There are objects among the files exactly if some file is an object.
pub proof fn lemma_objects_before(groups: Seq<Group>, g: int, f: int)
    requires
        is_countable(groups),
        0 <= g < groups.len() && 0 <= f <= groups[g].files@.len() || g == groups.len() && f == 0,
    ensures
        objects_before(groups, g, f) > 0 <==> exists|file_id: FileId|
            has_input(groups, file_id) && is_before(file_id, g, f) && #[trigger] input_at(groups, file_id) is Object,
    decreases g, f,
{
    if f > 0 {
        lemma_objects_before(groups, g, f - 1);
        let new_id = FileId { group: g as usize, file: (f - 1) as usize };
        if !(input_at(groups, new_id) is Object) {
            if exists|file_id: FileId|
                has_input(groups, file_id) && is_before(file_id, g, f)
                    && #[trigger] input_at(groups, file_id) is Object {
                let file_id = choose|file_id: FileId|
                    has_input(groups, file_id) && is_before(file_id, g, f) && #[trigger] input_at(
                        groups,
                        file_id,
                    ) is Object;
            }
            if objects_before(groups, g, f) > 0 {
                let file_id = choose|file_id: FileId|
                    has_input(groups, file_id) && is_before(file_id, g, f - 1) && #[trigger] input_at(
                        groups,
                        file_id,
                    ) is Object;
            }
        }
    } else if g > 0 {
        lemma_objects_before(groups, g - 1, groups[g - 1].files@.len() as int);
        if objects_before(groups, g, f) > 0 {
            let file_id = choose|file_id: FileId|
                has_input(groups, file_id) && is_before(file_id, g - 1, groups[g - 1].files@.len() as int)
                    && #[trigger] input_at(groups, file_id) is Object;
        }
        if exists|file_id: FileId|
            has_input(groups, file_id) && is_before(file_id, g, f) && #[trigger] input_at(groups, file_id) is Object {
            let file_id = choose|file_id: FileId|
                has_input(groups, file_id) && is_before(file_id, g, f)
                    && #[trigger] input_at(groups, file_id) is Object;
        }
    }
}

/// Whether the files of `order` are the files that are processed, each once.
pub open spec fn is_order<'data>(
    symbol_db: &SymbolDb<'data>,
    groups: Seq<Group<'data>>,
    initial: Seq<SymbolId>,
    order: Seq<FileId>,
) -> bool {
    &&& order.no_duplicates()
    &&& forall|file_id: FileId|
        #[trigger] order.contains(file_id) <==> has_input(groups, file_id) && is_reached(
            symbol_db,
            groups,
            initial,
            file_id,
        )
}

/// Whether `resolved`, `definitions` and `undefined` are what resolution
/// comes to when the files are processed in the order `order`: the objects
/// that are processed have been loaded and no other file has; the symbols of
/// each object that is processed have the definitions that processing it
/// gives them, and every other definition is as it was; and the references
/// that were left undefined are those of the files that are processed, file
/// by file.
#[verifier::opaque]
pub open spec fn is_resolution<'data>(
    symbol_db: &SymbolDb<'data>,
    groups: Seq<Group<'data>>,
    initial: Seq<SymbolId>,
    order: Seq<FileId>,
    resolved: Seq<ResolvedGroup<'data>>,
    definitions: Seq<SymbolId>,
    undefined: Seq<UndefinedSymbol<'data>>,
) -> bool {
    &&& is_order(symbol_db, groups, initial, order)
    &&& resolved.len() == groups.len()
    &&& forall|g: int| 0 <= g < groups.len() ==> (#[trigger] resolved[g]).files@.len() == groups[g].files@.len()
    &&& forall|file_id: FileId|
        has_input(groups, file_id) ==> is_resolved_as(
            #[trigger] file_at(resolved, file_id),
            input_at(groups, file_id),
            is_reached(symbol_db, groups, initial, file_id),
            symbol_db.args.strip_debug,
        )
    &&& definitions.len() == initial.len()
    &&& forall|file_id: FileId|
        has_input(groups, file_id) && #[trigger] input_at(groups, file_id) is Object ==> own_definitions(
            definitions,
            &input_at(groups, file_id)->Object_0,
        ) == if is_reached(symbol_db, groups, initial, file_id) {
            outcome_of(symbol_db, groups, initial, file_id).definitions
        } else {
            own_definitions(initial, &input_at(groups, file_id)->Object_0)
        }
    &&& forall|index: int|
        0 <= index < initial.len() && !is_covered(groups, order, order.len() as int, index)
            ==> #[trigger] definitions[index] == initial[index]
    &&& undefined == undefined_through(symbol_db, groups, initial, order, order.len() as int)
}

/// The first error is the error of a file, and there is none exactly if no file fails.
pub proof fn lemma_first_error<'data>(
    symbol_db: &SymbolDb<'data>,
    groups: Seq<Group<'data>>,
    initial: Seq<SymbolId>,
    order: Seq<FileId>,
    k: int,
)
    requires
        0 <= k <= order.len(),
    ensures
        match first_error_through(symbol_db, groups, initial, order, k) {
            Some(e) => exists|i: int|
                0 <= i < k && (#[trigger] outcome_of(symbol_db, groups, initial, order[i])).error == Some(e),
            None => forall|i: int|
                0 <= i < k ==> (#[trigger] outcome_of(symbol_db, groups, initial, order[i])).error is None,
        },
    decreases k,
{
    if k > 0 {
        lemma_first_error(symbol_db, groups, initial, order, k - 1);
        match first_error_through(symbol_db, groups, initial, order, k - 1) {
            Some(e) => {
                let i = choose|i: int|
                    0 <= i < k - 1 && (#[trigger] outcome_of(symbol_db, groups, initial, order[i])).error
                        == Some(e);
            },
            None => {
                match outcome_of(symbol_db, groups, initial, order[k - 1]).error {
                    Some(e) => {
                    },
                    None => {},
                }
            },
        }
    }
}

/// What the references that are left undefined are depends on the table of
/// symbols only in the global names, the files of the symbols, and the arguments.
pub proof fn lemma_same_through<'data>(
    a: &SymbolDb<'data>,
    b: &SymbolDb<'data>,
    groups: Seq<Group<'data>>,
    initial: Seq<SymbolId>,
    order: Seq<FileId>,
    k: int,
)
    requires
        crate::resolution::same_lookup(a, b),
    ensures
        undefined_through(a, groups, initial, order, k) == undefined_through(b, groups, initial, order, k),
        first_error_through(a, groups, initial, order, k) == first_error_through(b, groups, initial, order, k),
    decreases k,
{
    if k > 0 {
        lemma_same_through(a, b, groups, initial, order, k - 1);
        lemma_same_outcome(a, b, groups, initial, order[k - 1]);
    }
}

/// When every file of the queue has been processed, the queue holds the
/// files that are processed, each once.
proof fn lemma_queue_is_order<'data>(
    work: Work<'data>,
    symbol_db: &SymbolDb<'data>,
    groups: Seq<Group<'data>>,
    initial: Seq<SymbolId>,
)
    requires
        work.consistent(symbol_db, groups, initial, work.head as int),
        work.head == work.work_queue@.len(),
    ensures
        is_order(symbol_db, groups, initial, work.work_queue@),
        forall|file_id: FileId|
            has_input(groups, file_id) ==> (#[trigger] is_processed(
                work.work_queue@,
                work.head as int,
                file_id,
            ) <==> is_reached(symbol_db, groups, initial, file_id)),
{
    let order = work.work_queue@;
    let head = work.head as int;
    assert forall|file_id: FileId| has_input(groups, file_id)
        && is_reached(symbol_db, groups, initial, file_id) implies order.contains(
        file_id,
    ) by {
        let path = choose|path: Seq<FileId>|
            #[trigger] is_path(symbol_db, groups, initial, path) && path.last() == file_id;
        lemma_path_in_queue(work, symbol_db, groups, initial, path, path.len() - 1);
    }
    reveal(Work::consistent);
    reveal(Work::queue_ok);
}

/// When every file of the queue has been processed and none has failed,
/// the state is what resolution comes to.
proof fn lemma_finished<'data>(
    work: Work<'data>,
    symbol_db: &SymbolDb<'data>,
    groups: Seq<Group<'data>>,
    initial: Seq<SymbolId>,
)
    requires
        work.consistent(symbol_db, groups, initial, work.head as int),
        work.head == work.work_queue@.len(),
    ensures
        is_order(symbol_db, groups, initial, work.work_queue@),
        work.definitions@.len() == initial.len(),
        work.first_error == first_error_through(
            symbol_db,
            groups,
            initial,
            work.work_queue@,
            work.work_queue@.len() as int,
        ),
        work.first_error is None ==> is_resolution(
            symbol_db,
            groups,
            initial,
            work.work_queue@,
            work.resolved@,
            work.definitions@,
            work.undefined_symbols@,
        ),
{
    let order = work.work_queue@;
    let head = work.head as int;
    lemma_queue_is_order(work, symbol_db, groups, initial);
    lemma_first_error(symbol_db, groups, initial, order, head);
    assert(work.first_error == first_error_through(symbol_db, groups, initial, order, head)
        && work.definitions@.len() == initial.len()) by {
        reveal(Work::consistent);
    reveal(Work::definitions_ok);
    reveal(Work::totals_ok);
    }
    if work.first_error is None {
        reveal(is_resolution);
        assert forall|file_id: FileId| has_input(groups, file_id) implies is_resolved_as(
            #[trigger] file_at(work.resolved@, file_id),
            input_at(groups, file_id),
            is_reached(symbol_db, groups, initial, file_id),
            symbol_db.args.strip_debug,
        ) by {
            reveal(Work::consistent);
    reveal(Work::files_ok);
            if is_processed(order, head, file_id) {
                let i = choose|i: int| 0 <= i < head && i < order.len() && #[trigger] order[i] == file_id;
            }
        }
        assert forall|file_id: FileId|
            has_input(groups, file_id) && #[trigger] input_at(groups, file_id) is Object implies own_definitions(
            work.definitions@,
            &input_at(groups, file_id)->Object_0,
        ) == if is_reached(symbol_db, groups, initial, file_id) {
            outcome_of(symbol_db, groups, initial, file_id).definitions
        } else {
            own_definitions(initial, &input_at(groups, file_id)->Object_0)
        } by {
            reveal(Work::consistent);
    reveal(Work::definitions_ok);
        }
        assert(work.resolved@.len() == groups.len() && (forall|g: int|
            0 <= g < groups.len() ==> (#[trigger] work.resolved@[g]).files@.len() == groups[g].files@.len())
            && (forall|index: int|
            0 <= index < initial.len() && !is_covered(groups, order, order.len() as int, index)
                ==> #[trigger] work.definitions@[index] == initial[index]) && work.undefined_symbols@
            == undefined_through(symbol_db, groups, initial, order, order.len() as int)) by {
            reveal(Work::consistent);
    reveal(Work::definitions_ok);
    reveal(Work::files_ok);
    reveal(Work::totals_ok);
        }
    }
}

/// Which file fails first, if one does, is a file that is processed; none
/// fails exactly if no file that is processed fails.
proof fn lemma_error_is_reached<'data>(
    symbol_db: &SymbolDb<'data>,
    groups: Seq<Group<'data>>,
    initial: Seq<SymbolId>,
    order: Seq<FileId>,
)
    requires
        is_order(symbol_db, groups, initial, order),
    ensures
        match first_error_through(symbol_db, groups, initial, order, order.len() as int) {
            Some(e) => exists|file_id: FileId|
                has_input(groups, file_id) && is_reached(symbol_db, groups, initial, file_id) && (
                #[trigger] outcome_of(symbol_db, groups, initial, file_id)).error == Some(e),
            None => forall|file_id: FileId|
                has_input(groups, file_id) && is_reached(symbol_db, groups, initial, file_id) ==> (
                #[trigger] outcome_of(symbol_db, groups, initial, file_id)).error is None,
        },
{
    lemma_first_error(symbol_db, groups, initial, order, order.len() as int);
    match first_error_through(symbol_db, groups, initial, order, order.len() as int) {
        Some(e) => {
            let i = choose|i: int|
                0 <= i < order.len() && (#[trigger] outcome_of(symbol_db, groups, initial, order[i])).error
                    == Some(e);
            assert(order.contains(order[i]));
        },
        None => {
            assert forall|file_id: FileId|
                has_input(groups, file_id) && is_reached(symbol_db, groups, initial, file_id) implies (
            #[trigger] outcome_of(symbol_db, groups, initial, file_id)).error is None by {
                assert(order.contains(file_id));
                let i = choose|i: int| 0 <= i < order.len() && order[i] == file_id;
            }
        },
    }
}

/// What resolution comes to depends on the table of symbols only in the
/// global names, the files of the symbols, and the arguments.
proof fn lemma_same_resolution<'data>(
    a: &SymbolDb<'data>,
    b: &SymbolDb<'data>,
    groups: Seq<Group<'data>>,
    initial: Seq<SymbolId>,
    order: Seq<FileId>,
    resolved: Seq<ResolvedGroup<'data>>,
    definitions: Seq<SymbolId>,
    undefined: Seq<UndefinedSymbol<'data>>,
)
    requires
        crate::resolution::same_lookup(a, b),
        is_resolution(a, groups, initial, order, resolved, definitions, undefined),
    ensures
        is_resolution(b, groups, initial, order, resolved, definitions, undefined),
        first_error_through(a, groups, initial, order, order.len() as int) == first_error_through(
            b,
            groups,
            initial,
            order,
            order.len() as int,
        ),
{
    reveal(is_resolution);
    assert forall|file_id: FileId| is_reached(a, groups, initial, file_id) == is_reached(
        b,
        groups,
        initial,
        file_id,
    ) by {
        if is_reached(a, groups, initial, file_id) {
            lemma_same_reach(a, b, groups, initial, file_id);
        }
        if is_reached(b, groups, initial, file_id) {
            lemma_same_reach(b, a, groups, initial, file_id);
        }
    }
    assert forall|file_id: FileId| outcome_of(a, groups, initial, file_id) == outcome_of(
        b,
        groups,
        initial,
        file_id,
    ) by {
        lemma_same_outcome(a, b, groups, initial, file_id);
    }
    lemma_same_through(a, b, groups, initial, order, order.len() as int);
}

/// At the start the state is consistent, and the queue holds no file for
/// which it would have to hold the files that the file asks for.
proof fn lemma_start_consistent<'data>(
    work: Work<'data>,
    start: Start<'data>,
    symbol_db: &SymbolDb<'data>,
    groups: Seq<Group<'data>>,
    initial: Seq<SymbolId>,
)
    requires
        is_countable(groups),
        start.starts(groups),
        inputs_fit(groups, symbol_db, initial),
        work.resolved == start.resolved,
        work.work_queue == start.work_queue,
        work.claims == start.claims,
        work.head == 0,
        work.definitions@ == initial,
        work.undefined_symbols@.len() == 0,
        work.first_error is None,
    ensures
        work.consistent(symbol_db, groups, initial, 0),
{
    reveal(Work::consistent);
    reveal(Work::queue_ok);
    reveal(Work::definitions_ok);
    reveal(Work::files_ok);
    reveal(Work::totals_ok);
    let order = work.work_queue@;
    lemma_roots_before(groups, groups.len() as int, 0);
    assert forall|i: int| 0 <= i < order.len() implies has_input(groups, #[trigger] order[i]) && is_reached(
        symbol_db,
        groups,
        initial,
        order[i],
    ) by {
        assert(order.contains(order[i]));
        lemma_root_is_reached(symbol_db, groups, initial, order[i]);
    }
    assert(work.undefined_symbols@ =~= undefined_through(symbol_db, groups, initial, order, 0));
}

/// What the state says of the next file of the queue.
proof fn lemma_next_file<'data>(
    work: Work<'data>,
    symbol_db: &SymbolDb<'data>,
    groups: Seq<Group<'data>>,
    initial: Seq<SymbolId>,
    closed: int,
)
    requires
        work.consistent(symbol_db, groups, initial, closed),
        work.head < work.work_queue@.len(),
    ensures
        symbol_db.wf(),
        has_input(groups, work.work_queue@[work.head as int]),
        work.resolved@.len() == groups.len(),
        forall|g: int| 0 <= g < groups.len() ==> (#[trigger] work.resolved@[g]).files@.len() == groups[g].files@.len(),
        input_at(groups, work.work_queue@[work.head as int]) is Object ==> {
            let obj = input_at(groups, work.work_queue@[work.head as int])->Object_0;
            &&& obj.symbol_id_range.start_symbol_id@ + obj.symbol_id_range.num_symbols
                <= work.definitions@.len()
            &&& file_processable(
                groups,
                work.work_queue@[work.head as int],
                own_definitions(work.definitions@, &obj),
            )
        },
{
    reveal(Work::consistent);
    reveal(Work::queue_ok);
    reveal(Work::definitions_ok);
    reveal(Work::files_ok);
    reveal(inputs_fit);
    let order = work.work_queue@;
    let head = work.head as int;
    let file_id = order[head];
    if is_processed(order, head, file_id) {
        let i = choose|i: int| 0 <= i < head && i < order.len() && #[trigger] order[i] == file_id;
    }
}

impl<'data> Work<'data> {
    /// Processes the next file of the queue and returns the files that it
    /// asks for.
    fn process_next(
        &mut self,
        groups: &'data [Group<'data>],
        symbol_db: &SymbolDb<'data>,
        Ghost(initial): Ghost<Seq<SymbolId>>,
    ) -> (requested: Vec<FileId>)
        requires
            old(self).consistent(symbol_db, groups@, initial, old(self).head as int),
            old(self).head < old(self).work_queue@.len(),
        ensures
            final(self).consistent(symbol_db, groups@, initial, old(self).head as int),
            final(self).head == old(self).head + 1,
            final(self).work_queue == old(self).work_queue,
            final(self).remaining() == old(self).remaining() - 1,
            requested@ == outcome_of(
                symbol_db,
                groups@,
                initial,
                old(self).work_queue@[old(self).head as int],
            ).requested,
    {
        proof {
            lemma_next_file(*self, symbol_db, groups@, initial, self.head as int);
        }
        let file_id = self.work_queue[self.head];
        let mut requested: Vec<FileId> = Vec::new();
        let mut undefined: Vec<UndefinedSymbol<'data>> = Vec::new();
        let mut loaded: Vec<ResolvedObject<'data>> = Vec::new();
        let r = process_file(
            file_id,
            &mut self.definitions,
            groups,
            symbol_db,
            &mut requested,
            &mut undefined,
            &mut loaded,
        );
        self.undefined_symbols.append(&mut undefined);
        match r {
            Err(e) => {
                if self.first_error.is_none() {
                    self.first_error = Some(e);
                }
            },
            Ok(()) => {
                if let Some(obj) = loaded.pop() {
                    self.resolved[file_id.group].files[file_id.file] = ResolvedFile::Object(obj);
                }
            },
        }
        let queue_len = self.work_queue.len();
        self.head = self.head + 1;
        proof {
            lemma_processing_keeps_consistent(*old(self), *self, symbol_db, groups@, initial);
        }
        requested
    }

    /// Asks for each of the files `requested`, which the file that was
    /// processed last asks for.
    fn enqueue_requests(
        &mut self,
        requested: &Vec<FileId>,
        Ghost(symbol_db): Ghost<&SymbolDb<'data>>,
        Ghost(groups): Ghost<Seq<Group<'data>>>,
        Ghost(initial): Ghost<Seq<SymbolId>>,
    )
        requires
            old(self).head >= 1,
            old(self).head <= old(self).work_queue@.len(),
            old(self).consistent(symbol_db, groups, initial, old(self).head - 1),
            requested@ == outcome_of(
                symbol_db,
                groups,
                initial,
                old(self).work_queue@[old(self).head - 1],
            ).requested,
        ensures
            final(self).consistent(symbol_db, groups, initial, final(self).head as int),
            final(self).head == old(self).head,
            final(self).remaining() == old(self).remaining(),
            final(self).head <= final(self).work_queue@.len(),
    {
        let ghost from = self.work_queue@[self.head - 1];
        proof {
            lemma_previous_file(*self, symbol_db, groups, initial);
            lemma_requests_are_inputs(symbol_db, groups, initial, from);
        }
        let mut j: usize = 0;
        while j < requested.len()
            invariant
                j <= requested@.len(),
                self.head == old(self).head,
                self.head >= 1,
                self.head <= self.work_queue@.len(),
                from == self.work_queue@[self.head - 1],
                has_input(groups, from),
                is_reached(symbol_db, groups, initial, from),
                requested@ == outcome_of(symbol_db, groups, initial, from).requested,
                forall|i: int| 0 <= i < requested@.len() ==> has_input(groups, #[trigger] requested@[i]),
                claims_fit(self.claims@, groups),
                self.consistent(symbol_db, groups, initial, self.head - 1),
                forall|i: int| 0 <= i < j ==> self.work_queue@.contains(#[trigger] requested@[i]),
                self.remaining() == old(self).remaining(),
            decreases requested@.len() - j,
        {
            let file_id = requested[j];
            let ghost before = *self;
            request_file_id(&mut self.claims, &mut self.work_queue, file_id);
            proof {
                lemma_requested_is_reached(symbol_db, groups, initial, from, file_id);
                lemma_request_keeps_consistent(
                    before,
                    *self,
                    symbol_db,
                    groups,
                    initial,
                    self.head - 1,
                    file_id,
                );
            }
            j = j + 1;
        }
        proof {
            lemma_requests_closed(*self, symbol_db, groups, initial, requested@);
        }
    }
}

/// What the state says of the file that was processed last.
proof fn lemma_previous_file<'data>(
    work: Work<'data>,
    symbol_db: &SymbolDb<'data>,
    groups: Seq<Group<'data>>,
    initial: Seq<SymbolId>,
)
    requires
        work.head >= 1,
        work.head <= work.work_queue@.len(),
        work.consistent(symbol_db, groups, initial, work.head - 1),
    ensures
        inputs_fit(groups, symbol_db, initial),
        claims_fit(work.claims@, groups),
        has_input(groups, work.work_queue@[work.head - 1]),
        is_reached(symbol_db, groups, initial, work.work_queue@[work.head - 1]),
{
    reveal(Work::consistent);
    reveal(Work::queue_ok);
}

/// Once the queue holds the files that the file processed last asks for,
/// it holds the files that any of the processed files asks for.
proof fn lemma_requests_closed<'data>(
    work: Work<'data>,
    symbol_db: &SymbolDb<'data>,
    groups: Seq<Group<'data>>,
    initial: Seq<SymbolId>,
    requested: Seq<FileId>,
)
    requires
        work.head >= 1,
        work.head <= work.work_queue@.len(),
        work.consistent(symbol_db, groups, initial, work.head - 1),
        requested == outcome_of(symbol_db, groups, initial, work.work_queue@[work.head - 1]).requested,
        forall|i: int| 0 <= i < requested.len() ==> work.work_queue@.contains(#[trigger] requested[i]),
    ensures
        work.consistent(symbol_db, groups, initial, work.head as int),
{
    reveal(Work::consistent);
    reveal(Work::queue_ok);
}

/// Whether `after` is `before` but for the table of definitions.
pub open spec fn same_but_definitions<'data>(before: &SymbolDb<'data>, after: &SymbolDb<'data>) -> bool {
    &&& after.args == before.args
    &&& after.global_names == before.global_names
    &&& after.symbol_file_ids == before.symbol_file_ids
    &&& after.symbol_value_flags == before.symbol_value_flags
    &&& after.alternative_definitions == before.alternative_definitions
    &&& after.symbols_with_alternatives == before.symbols_with_alternatives
    &&& after.start_stop_symbol_names == before.start_stop_symbol_names
    &&& after.epilogue_file_id == before.epilogue_file_id
}

/// Whether the file is processed and fails with the error `e`.
#[verifier::opaque]
pub open spec fn fails_with<'data>(
    symbol_db: &SymbolDb<'data>,
    groups: Seq<Group<'data>>,
    initial: Seq<SymbolId>,
    file_id: FileId,
    e: Error,
) -> bool {
    &&& has_input(groups, file_id)
    &&& is_reached(symbol_db, groups, initial, file_id)
    &&& outcome_of(symbol_db, groups, initial, file_id).error == Some(e)
}

/// Finds out which files are loaded, and resolves the symbols of those that
/// are. The objects that are not optional are processed, and every file that
/// a processed file asks for, each file once. Processing an object resolves
/// its symbols and classifies its sections; if that succeeds, the object is
/// loaded.
///
/// Fails if no file is an object, and then leaves the table of definitions
/// taken out. Fails also if a file that is processed fails, with the error
/// of the first that does; the other files are processed all the same.
/// Returns the files after resolution, the references that were left
/// undefined, and the last file that holds the linker's own symbols.
pub fn resolve_symbols_in_files<'data>(groups: &'data [Group<'data>], symbol_db: &mut SymbolDb<'data>) -> (r:
    Result<(Vec<ResolvedGroup<'data>>, Vec<UndefinedSymbol<'data>>, &'data Prelude), Error>)
    requires
        inputs_fit(groups@, old(symbol_db), old(symbol_db).symbol_definitions@),
    ensures
        same_but_definitions(old(symbol_db), final(symbol_db)),
        !has_objects(groups@) ==> r == Err::<
            (Vec<ResolvedGroup<'data>>, Vec<UndefinedSymbol<'data>>, &'data Prelude),
            Error,
        >(Error::NoInputFiles) && final(symbol_db).symbol_definitions@.len() == 0,
        has_objects(groups@) ==> match r {
            Ok((resolved, undefined, prelude)) => {
                &&& forall|file_id: FileId, e: Error|
                    !#[trigger] fails_with(
                        old(symbol_db),
                        groups@,
                        old(symbol_db).symbol_definitions@,
                        file_id,
                        e,
                    )
                &&& exists|order: Seq<FileId>| #[trigger]
                    is_resolution(
                        old(symbol_db),
                        groups@,
                        old(symbol_db).symbol_definitions@,
                        order,
                        resolved@,
                        final(symbol_db).symbol_definitions@,
                        undefined@,
                    )
                &&& last_prelude(groups@, groups@.len() as int, 0) is Some
                &&& *prelude == input_at(
                    groups@,
                    last_prelude(groups@, groups@.len() as int, 0)->Some_0,
                )->Prelude_0
            },
            Err(e) => {
                &&& final(symbol_db).symbol_definitions@.len() == old(symbol_db).symbol_definitions@.len()
                &&& exists|file_id: FileId| #[trigger]
                    fails_with(old(symbol_db), groups@, old(symbol_db).symbol_definitions@, file_id, e)
            },
        },
{
    let ghost initial = symbol_db.symbol_definitions@;
    let symbol_definitions = symbol_db.take_definitions();
    proof {
        inputs_fit_same(groups@, old(symbol_db), symbol_db, initial);
    }
    let (mut work, prelude) = match begin(groups, symbol_definitions, Ghost(symbol_db)) {
        Some(started) => started,
        None => {
            return Err(Error::NoInputFiles);
        },
    };
    drain(&mut work, groups, symbol_db, Ghost(initial));
    proof {
        lemma_result(work, symbol_db, old(symbol_db), groups@, initial);
    }
    let first_error = work.first_error;
    let Work { resolved, work_queue, head: _, claims: _, definitions, undefined_symbols, first_error: _ } = work;
    symbol_db.restore_definitions(definitions);
    let r = match first_error {
        Some(e) => Err(e),
        None => Ok((resolved, undefined_symbols, prelude)),
    };
    proof {
        if r is Ok {
            assert(is_resolution(
                old(symbol_db),
                groups@,
                old(symbol_db).symbol_definitions@,
                work_queue@,
                r->Ok_0.0@,
                symbol_db.symbol_definitions@,
                r->Ok_0.1@,
            ));
        }
    }
    r
}

/// Sets resolution up, unless no file is an object.
fn begin<'data>(
    groups: &'data [Group<'data>],
    symbol_definitions: Vec<SymbolId>,
    Ghost(symbol_db): Ghost<&SymbolDb<'data>>,
) -> (r: Option<(Work<'data>, &'data Prelude)>)
    requires
        inputs_fit(groups@, symbol_db, symbol_definitions@),
    ensures
        match r {
            Some((work, prelude)) => {
                &&& has_objects(groups@)
                &&& work.head == 0
                &&& work.consistent(symbol_db, groups@, symbol_definitions@, 0)
                &&& last_prelude(groups@, groups@.len() as int, 0) is Some
                &&& *prelude == input_at(
                    groups@,
                    last_prelude(groups@, groups@.len() as int, 0)->Some_0,
                )->Prelude_0
            },
            None => !has_objects(groups@),
        },
{
    let ghost initial = symbol_definitions@;
    let start = start_resolution(groups);
    let num_groups = groups.len();
    proof {
        assert(is_countable(groups@)) by {
            assert forall|g: int| 0 <= g < groups@.len() implies (#[trigger] groups@[g]).files@.len()
                <= usize::MAX by {
                assert(groups@[g].files@.len() == groups@[g].files.len());
            }
        }
        lemma_objects_before(groups@, groups@.len() as int, 0);
        if has_objects(groups@) {
            let file_id = choose|file_id: FileId|
                has_input(groups@, file_id) && #[trigger] input_at(groups@, file_id) is Object;
        }
        lemma_first_is_prelude(groups@, symbol_db, initial);
        lemma_last_prelude(groups@, groups@.len() as int, 0, FileId { group: 0, file: 0 });
    }
    if start.num_objects == 0 {
        return None;
    }
    let prelude = match start.prelude {
        Some(prelude) => prelude,
        None => {
            return None;
        },
    };
    let ghost start_before = start;
    let work = Work {
        resolved: start.resolved,
        work_queue: start.work_queue,
        head: 0,
        claims: start.claims,
        definitions: symbol_definitions,
        undefined_symbols: Vec::new(),
        first_error: None,
    };
    proof {
        lemma_start_consistent(work, start_before, symbol_db, groups@, initial);
    }
    Some((work, prelude))
}

/// Works the queue off: processes its files one after the other, and asks
/// for the files that each asks for.
fn drain<'data>(
    work: &mut Work<'data>,
    groups: &'data [Group<'data>],
    symbol_db: &SymbolDb<'data>,
    Ghost(initial): Ghost<Seq<SymbolId>>,
)
    requires
        old(work).consistent(symbol_db, groups@, initial, old(work).head as int),
        old(work).head <= old(work).work_queue@.len(),
    ensures
        final(work).consistent(symbol_db, groups@, initial, final(work).head as int),
        final(work).head == final(work).work_queue@.len(),
{
    while work.head < work.work_queue.len()
        invariant
            work.consistent(symbol_db, groups@, initial, work.head as int),
            work.head <= work.work_queue@.len(),
        decreases work.remaining(),
    {
        let requested = work.process_next(groups, symbol_db, Ghost(initial));
        work.enqueue_requests(&requested, Ghost(symbol_db), Ghost(groups@), Ghost(initial));
    }
}

/// When every file of the queue has been processed, the state is what
/// resolution comes to, also by a table of symbols that differs from the
/// one that was used in what processing does not read; unless a file has
/// failed, and then the first error is that of a file that is processed.
proof fn lemma_result<'data>(
    work: Work<'data>,
    used: &SymbolDb<'data>,
    symbol_db: &SymbolDb<'data>,
    groups: Seq<Group<'data>>,
    initial: Seq<SymbolId>,
)
    requires
        work.consistent(used, groups, initial, work.head as int),
        work.head == work.work_queue@.len(),
        crate::resolution::same_lookup(used, symbol_db),
    ensures
        work.definitions@.len() == initial.len(),
        match work.first_error {
            Some(e) => exists|file_id: FileId| #[trigger] fails_with(symbol_db, groups, initial, file_id, e),
            None => {
                &&& forall|file_id: FileId, e: Error| !#[trigger] fails_with(symbol_db, groups, initial, file_id, e)
                &&& is_resolution(
                    symbol_db,
                    groups,
                    initial,
                    work.work_queue@,
                    work.resolved@,
                    work.definitions@,
                    work.undefined_symbols@,
                )
            },
        },
{
    reveal(fails_with);
    let order = work.work_queue@;
    lemma_finished(work, used, groups, initial);
    lemma_error_is_reached(used, groups, initial, order);
    assert forall|file_id: FileId| is_reached(used, groups, initial, file_id) == is_reached(
        symbol_db,
        groups,
        initial,
        file_id,
    ) by {
        if is_reached(used, groups, initial, file_id) {
            lemma_same_reach(used, symbol_db, groups, initial, file_id);
        }
        if is_reached(symbol_db, groups, initial, file_id) {
            lemma_same_reach(symbol_db, used, groups, initial, file_id);
        }
    }
    assert forall|file_id: FileId| outcome_of(used, groups, initial, file_id) == outcome_of(
        symbol_db,
        groups,
        initial,
        file_id,
    ) by {
        lemma_same_outcome(used, symbol_db, groups, initial, file_id);
    }
    match work.first_error {
        Some(e) => {
            let file_id = choose|file_id: FileId|
                has_input(groups, file_id) && is_reached(used, groups, initial, file_id) && (
                #[trigger] outcome_of(used, groups, initial, file_id)).error == Some(e);
            assert(fails_with(symbol_db, groups, initial, file_id, e));
        },
        None => {
            lemma_same_resolution(
                used,
                symbol_db,
                groups,
                initial,
                order,
                work.resolved@,
                work.definitions@,
                work.undefined_symbols@,
            );
        },
    }
}

/// Whether files and table belong together depends on the table of
/// symbols only in what taking the table of definitions out leaves alone.
proof fn inputs_fit_same<'data>(
    groups: Seq<Group<'data>>,
    before: &SymbolDb<'data>,
    after: &SymbolDb<'data>,
    initial: Seq<SymbolId>,
)
    requires
        inputs_fit(groups, before, initial),
        same_but_definitions(before, after),
    ensures
        inputs_fit(groups, after, initial),
{
    reveal(inputs_fit);
}

/// Files and table that belong together start with the file that holds the
/// linker's own symbols.
proof fn lemma_first_is_prelude<'data>(groups: Seq<Group<'data>>, symbol_db: &SymbolDb<'data>, initial: Seq<SymbolId>)
    requires
        inputs_fit(groups, symbol_db, initial),
    ensures
        has_input(groups, FileId { group: 0, file: 0 }),
        input_at(groups, FileId { group: 0, file: 0 }) is Prelude,
{
    reveal(inputs_fit);
}

/// Where a file holds the linker's own symbols, there is a last such file.
proof fn lemma_last_prelude(groups: Seq<Group>, g: int, f: int, file_id: FileId)
    requires
        is_countable(groups),
        0 <= g < groups.len() && 0 <= f <= groups[g].files@.len() || g == groups.len() && f == 0,
        has_input(groups, file_id),
        input_at(groups, file_id) is Prelude,
        is_before(file_id, g, f),
    ensures
        last_prelude(groups, g, f) is Some,
        has_input(groups, last_prelude(groups, g, f)->Some_0),
        input_at(groups, last_prelude(groups, g, f)->Some_0) is Prelude,
    decreases g, f,
{
    if f > 0 {
        if !(groups[g].files@[f - 1] is Prelude) {
            lemma_last_prelude(groups, g, f - 1, file_id);
        }
    } else if g > 0 {
        lemma_last_prelude(groups, g - 1, groups[g - 1].files@.len() as int, file_id);
    }
}

} // verus!
