//! Creating and opening a named shared memory region.
//!
//! Opening a region takes several calls into the operating system. Which call comes next, and
//! what is undone after one that failed, is decided here; the caller makes the calls and says
//! how they went.
//!
//! - POSIX: `shm_open`, `ftruncate`, `mmap`, and `shm_unlink` to remove the name
//! - Windows: `CreateFileMappingA` or `OpenFileMappingA`, and `MapViewOfFile`
use vstd::prelude::*;
use crate::error::SynapseError;
use crate::text;
use crate::text::{find_nul, push_decimal};

verus! {

/// Which family of calls a system has.
#[derive(Debug, Clone, Copy, PartialEq, Eq, Structural)]
pub enum Platform {
    Posix,
    Windows,
}

/// A call that the caller makes.
#[derive(Debug, Clone, Copy, PartialEq, Eq, Structural)]
pub enum Call {
    /// Create the named object; on POSIX one that does not exist yet, on Windows with its size.
    CreateObject,
    /// Open the named object.
    OpenObject,
    /// Set the object's size.
    SetSize,
    /// Map the object into memory.
    MapView,
    /// Fill the mapped memory with zeros.
    ZeroFill,
    /// Take the mapping away.
    Unmap,
    /// Close the object's descriptor or handle.
    CloseObject,
    /// Remove the object's name.
    UnlinkName,
}

/// What an opening needs next.
#[derive(Debug, Clone, Copy, PartialEq, Eq, Structural)]
pub enum Next {
    /// This call, and how it went.
    Make(Call),
    /// The system's words for its last error: the opening has failed.
    Explain,
    /// Nothing: the region is there.
    Nothing,
}

/// The calls that create or open a region, in order. On POSIX the mapping outlives the
/// descriptor, which is closed; on Windows the handle stays open with the region.
pub open spec fn plan(platform: Platform, create: bool) -> Seq<Call> {
    match (platform, create) {
        (Platform::Posix, true) => seq![
            Call::CreateObject,
            Call::SetSize,
            Call::MapView,
            Call::CloseObject,
            Call::ZeroFill,
        ],
        (Platform::Posix, false) => seq![Call::OpenObject, Call::MapView, Call::CloseObject],
        (Platform::Windows, true) => seq![Call::CreateObject, Call::MapView, Call::ZeroFill],
        (Platform::Windows, false) => seq![Call::OpenObject, Call::MapView],
    }
}

/// Whether an opening stops where this call fails.
pub open spec fn matters(call: Call) -> bool {
    call == Call::CreateObject || call == Call::OpenObject || call == Call::SetSize || call
        == Call::MapView
}

/// The calls that undo what came before a call that failed: the object is closed, and on POSIX a
/// creator removes the name.
pub open spec fn undo(platform: Platform, create: bool, failed: Call) -> Seq<Call> {
    if failed == Call::CreateObject || failed == Call::OpenObject {
        Seq::empty()
    } else if platform == Platform::Posix && create {
        seq![Call::CloseObject, Call::UnlinkName]
    } else {
        seq![Call::CloseObject]
    }
}

/// The words in front of the system's own for a call that failed.
pub open spec fn complaint(platform: Platform, call: Call) -> Seq<char> {
    if call == Call::SetSize {
        "ftruncate failed: "@
    } else if platform == Platform::Posix {
        if call == Call::CreateObject {
            "shm_open create failed: "@
        } else if call == Call::OpenObject {
            "shm_open open failed: "@
        } else {
            "mmap failed: "@
        }
    } else {
        if call == Call::CreateObject {
            "CreateFileMappingA failed: "@
        } else if call == Call::OpenObject {
            "OpenFileMappingA failed: "@
        } else {
            "MapViewOfFile failed: "@
        }
    }
}

/// A region that is being created or opened.
#[derive(Debug)]
pub struct Opening {
    pub platform: Platform,
    pub create: bool,
    pub name: String,
    pub size: usize,
    /// The calls to make.
    pub calls: Vec<Call>,
    /// How many of them went well.
    pub done: usize,
    /// The one that failed.
    pub failed: Option<Call>,
    /// How many calls were made to undo the others.
    pub undone: usize,
}

impl Opening {
    /// Whether the opening stands somewhere in its plan.
    pub open spec fn wf(self) -> bool {
        &&& self.calls@ == plan(self.platform, self.create)
        &&& self.done <= self.calls@.len()
        &&& match self.failed {
            Some(call) => {
                &&& self.done < self.calls@.len()
                &&& call == self.calls@[self.done as int]
                &&& matters(call)
                &&& self.undone <= undo(self.platform, self.create, call).len()
            },
            None => self.undone == 0,
        }
    }

    /// What the opening needs next.
    pub open spec fn needs(self) -> Next {
        match self.failed {
            Some(call) => {
                let undo = undo(self.platform, self.create, call);
                if self.undone < undo.len() {
                    Next::Make(undo[self.undone as int])
                } else {
                    Next::Explain
                }
            },
            None => if self.done < self.calls@.len() {
                Next::Make(self.calls@[self.done as int])
            } else {
                Next::Nothing
            },
        }
    }

    /// The opening after the call that it needed, which went well or not.
    pub open spec fn advanced(self, ok: bool) -> Opening {
        match self.failed {
            Some(_) => Opening { undone: (self.undone + 1) as usize, ..self },
            None => if !ok && matters(self.calls@[self.done as int]) {
                Opening { failed: Some(self.calls@[self.done as int]), ..self }
            } else {
                Opening { done: (self.done + 1) as usize, ..self }
            },
        }
    }

    /// What the opening needs next.
    pub fn next(&self) -> (next: Next)
        requires
            self.wf(),
        ensures
            next == self.needs(),
    {
        match self.failed {
            Some(call) => {
                if call == Call::CreateObject || call == Call::OpenObject {
                    Next::Explain
                } else if self.undone == 0 {
                    Next::Make(Call::CloseObject)
                } else if self.undone == 1 && self.platform == Platform::Posix && self.create {
                    Next::Make(Call::UnlinkName)
                } else {
                    Next::Explain
                }
            },
            None => {
                if self.done < self.calls.len() {
                    Next::Make(self.calls[self.done])
                } else {
                    Next::Nothing
                }
            },
        }
    }

    /// Goes on after the call that was needed, which went well or not. How closing, unlinking
    /// and filling went does not matter.
    pub fn advance(&mut self, ok: bool)
        requires
            old(self).wf(),
            old(self).needs() is Make,
        ensures
            *final(self) == old(self).advanced(ok),
            final(self).wf(),
    {
        match self.failed {
            Some(_) => {
                self.undone = self.undone + 1;
            },
            None => {
                let call: Call = self.calls[self.done];
                if !ok && (call == Call::CreateObject || call == Call::OpenObject || call
                    == Call::SetSize || call == Call::MapView) {
                    self.failed = Some(call);
                } else {
                    self.done = self.done + 1;
                }
            },
        }
    }

    /// The error of an opening that failed, given the system's words for it.
    pub fn explain(&self, detail: &str) -> (error: SynapseError)
        requires
            self.wf(),
            self.needs() is Explain,
        ensures
            error matches SynapseError::ShmError(message) && message@ == complaint(
                self.platform,
                self.failed.unwrap(),
            ) + detail@,
    {
        let mut message: String = String::new();
        match self.failed {
            Some(call) => {
                if call == Call::SetSize {
                    message.append("ftruncate failed: ");
                } else if self.platform == Platform::Posix {
                    if call == Call::CreateObject {
                        message.append("shm_open create failed: ");
                    } else if call == Call::OpenObject {
                        message.append("shm_open open failed: ");
                    } else {
                        message.append("mmap failed: ");
                    }
                } else {
                    if call == Call::CreateObject {
                        message.append("CreateFileMappingA failed: ");
                    } else if call == Call::OpenObject {
                        message.append("OpenFileMappingA failed: ");
                    } else {
                        message.append("MapViewOfFile failed: ");
                    }
                }
            },
            None => {},
        }
        message.append(detail);
        assert(message@ =~= complaint(self.platform, self.failed.unwrap()) + detail@);
        SynapseError::ShmError(message)
    }

    /// The region of an opening that needs nothing more.
    pub fn finish(self) -> (region: SharedRegion)
        requires
            self.wf(),
            self.needs() is Nothing,
        ensures
            region == (SharedRegion {
                platform: self.platform,
                name: self.name,
                size: self.size,
                is_creator: self.create,
            }),
    {
        SharedRegion {
            platform: self.platform,
            name: self.name,
            size: self.size,
            is_creator: self.create,
        }
    }
}

/// A mapped shared memory region.
#[derive(Debug)]
pub struct SharedRegion {
    pub platform: Platform,
    pub name: String,
    pub size: usize,
    pub is_creator: bool,
}

impl SharedRegion {
    /// Begins to create a new shared memory region. A name that the system cannot take is refused
    /// before any call.
    pub fn create(platform: Platform, name: &str, size: usize) -> (r: Result<Opening, SynapseError>)
        ensures
            match r {
                Ok(o) => {
                    &&& !name_refused(platform, name@)
                    &&& o.wf()
                    &&& o.platform == platform
                    &&& o.create
                    &&& o.name@ == name@
                    &&& o.size == size
                    &&& o.done == 0
                    &&& o.failed is None
                },
                Err(e) => {
                    &&& name_refused(platform, name@)
                    &&& e matches SynapseError::ShmError(message)
                    &&& message@ == name_complaint(name@)
                },
            },
    {
        if let Some(e) = name_fault(platform, name) {
            return Err(e);
        }
        let calls: Vec<Call> = match platform {
            Platform::Posix => SharedRegion::unix_create(),
            Platform::Windows => SharedRegion::win_create(),
        };
        Ok(Opening {
            platform,
            create: true,
            name: name.to_owned(),
            size,
            calls,
            done: 0,
            failed: None,
            undone: 0,
        })
    }

    /// Begins to open an existing shared memory region. A name that the system cannot take is
    /// refused before any call.
    pub fn open(platform: Platform, name: &str, size: usize) -> (r: Result<Opening, SynapseError>)
        ensures
            match r {
                Ok(o) => {
                    &&& !name_refused(platform, name@)
                    &&& o.wf()
                    &&& o.platform == platform
                    &&& !o.create
                    &&& o.name@ == name@
                    &&& o.size == size
                    &&& o.done == 0
                    &&& o.failed is None
                },
                Err(e) => {
                    &&& name_refused(platform, name@)
                    &&& e matches SynapseError::ShmError(message)
                    &&& message@ == name_complaint(name@)
                },
            },
    {
        if let Some(e) = name_fault(platform, name) {
            return Err(e);
        }
        let calls: Vec<Call> = match platform {
            Platform::Posix => SharedRegion::unix_open(),
            Platform::Windows => SharedRegion::win_open(),
        };
        Ok(Opening {
            platform,
            create: false,
            name: name.to_owned(),
            size,
            calls,
            done: 0,
            failed: None,
            undone: 0,
        })
    }

    fn unix_create() -> (calls: Vec<Call>)
        ensures
            calls@ == plan(Platform::Posix, true),
    {
        let calls: Vec<Call> = vec![
            Call::CreateObject,
            Call::SetSize,
            Call::MapView,
            Call::CloseObject,
            Call::ZeroFill,
        ];
        assert(calls@ =~= plan(Platform::Posix, true));
        calls
    }

    fn unix_open() -> (calls: Vec<Call>)
        ensures
            calls@ == plan(Platform::Posix, false),
    {
        let calls: Vec<Call> = vec![Call::OpenObject, Call::MapView, Call::CloseObject];
        assert(calls@ =~= plan(Platform::Posix, false));
        calls
    }

    fn win_create() -> (calls: Vec<Call>)
        ensures
            calls@ == plan(Platform::Windows, true),
    {
        let calls: Vec<Call> = vec![Call::CreateObject, Call::MapView, Call::ZeroFill];
        assert(calls@ =~= plan(Platform::Windows, true));
        calls
    }

    fn win_open() -> (calls: Vec<Call>)
        ensures
            calls@ == plan(Platform::Windows, false),
    {
        let calls: Vec<Call> = vec![Call::OpenObject, Call::MapView];
        assert(calls@ =~= plan(Platform::Windows, false));
        calls
    }

    /// The calls that give the region back: on POSIX the creator removes the name, on Windows
    /// the handle is closed.
    pub open spec fn release_plan(self) -> Seq<Call> {
        match self.platform {
            Platform::Posix => if self.is_creator {
                seq![Call::Unmap, Call::UnlinkName]
            } else {
                seq![Call::Unmap]
            },
            Platform::Windows => seq![Call::Unmap, Call::CloseObject],
        }
    }

    /// The calls that give the region back.
    pub fn release(&self) -> (calls: Vec<Call>)
        ensures
            calls@ == self.release_plan(),
    {
        let mut calls: Vec<Call> = Vec::new();
        calls.push(Call::Unmap);
        match self.platform {
            Platform::Posix => {
                if self.is_creator {
                    calls.push(Call::UnlinkName);
                }
            },
            Platform::Windows => {
                calls.push(Call::CloseObject);
            },
        }
        assert(calls@ =~= self.release_plan());
        calls
    }

    /// Size of the region.
    pub fn size(&self) -> (size: usize)
        ensures
            size == self.size,
    {
        self.size
    }

    /// Name of the region.
    pub fn name(&self) -> (name: &str)
        ensures
            name@ == self.name@,
    {
        self.name.as_str()
    }
}

/// Whether a system cannot take a name: on POSIX one with a null character, which would end it.
pub open spec fn name_refused(platform: Platform, name: Seq<char>) -> bool {
    platform == Platform::Posix && name.contains('\0')
}

/// What is said of a name that cannot be taken: where in the name for the system, which has a
/// slash in front, the null character is.
pub open spec fn name_complaint(name: Seq<char>) -> Seq<char> {
    "nul byte found in provided data at position: "@ + text::decimal(
        1 + text::nul_at(vstd::utf8::encode_utf8(name)),
    )
}

/// Why a system cannot take a name, if it cannot.
pub fn name_fault(platform: Platform, name: &str) -> (r: Option<SynapseError>)
    ensures
        r is Some <==> name_refused(platform, name@),
        r matches Some(e) ==> e matches SynapseError::ShmError(message) && message@
            == name_complaint(name@),
{
    let bytes: &[u8] = name.as_bytes();
    proof {
        text::lemma_zero_bytes(name@);
        text::lemma_nul_at(bytes@);
    }
    match platform {
        Platform::Posix => {
            let at: usize = find_nul(bytes);
            if at < bytes.len() {
                let mut message: String = String::new();
                message.append("nul byte found in provided data at position: ");
                push_decimal(&mut message, 1 + at as u64);
                assert(message@ =~= name_complaint(name@));
                Some(SynapseError::ShmError(message))
            } else {
                None
            }
        },
        Platform::Windows => None,
    }
}

/// The name under which POSIX knows a region.
pub fn posix_name(name: &str) -> (out: String)
    ensures
        out@ == "/"@ + name@,
{
    let mut out: String = String::new();
    out.append("/");
    out.append(name);
    assert(out@ =~= "/"@ + name@);
    out
}

/// The name under which Windows knows a region, with its final null character.
pub fn windows_name(name: &str) -> (out: String)
    ensures
        out@ == "Local\\synapse_"@ + name@ + "\0"@,
{
    let mut out: String = String::new();
    out.append("Local\\synapse_");
    out.append(name);
    out.append("\0");
    assert(out@ =~= "Local\\synapse_"@ + name@ + "\0"@);
    out
}

/// The high and the low half of a size, as Windows takes it.
pub fn size_halves(size: u64) -> (halves: (u32, u32))
    ensures
        halves.0 * 0x1_0000_0000 + halves.1 == size,
{
    ((size / 0x1_0000_0000) as u32, (size % 0x1_0000_0000) as u32)
}

/// What the calls of an opening leave behind in the system.
pub struct Traces {
    /// How many descriptors or handles of the object are open.
    pub open: int,
    /// Whether this process gave the object its name.
    pub named: bool,
    pub mapped: bool,
    pub zeroed: bool,
}

/// What a call changes.
pub open spec fn effect(t: Traces, call: Call, ok: bool) -> Traces {
    match call {
        Call::CreateObject => if ok {
            Traces { open: t.open + 1, named: true, ..t }
        } else {
            t
        },
        Call::OpenObject => if ok {
            Traces { open: t.open + 1, ..t }
        } else {
            t
        },
        Call::SetSize => t,
        Call::MapView => Traces { mapped: t.mapped || ok, ..t },
        Call::ZeroFill => Traces { zeroed: true, ..t },
        Call::Unmap => Traces { mapped: false, ..t },
        Call::CloseObject => Traces { open: t.open - 1, ..t },
        Call::UnlinkName => Traces { named: false, ..t },
    }
}

/// An opening and its traces after calls that went well or not, in this order. Further answers
/// than calls are not looked at.
pub open spec fn run(opening: Opening, answers: Seq<bool>) -> (Opening, Traces)
    decreases answers.len(),
{
    if answers.len() == 0 {
        (opening, Traces { open: 0, named: false, mapped: false, zeroed: false })
    } else {
        let (o, t) = run(opening, answers.drop_last());
        match o.needs() {
            Next::Make(call) => (o.advanced(answers.last()), effect(t, call, answers.last())),
            _ => (o, t),
        }
    }
}

/// What an opening has left behind where it stands.
spec fn expected(o: Opening) -> Traces {
    let posix = o.platform == Platform::Posix;
    let close = if !posix {
        100
    } else if o.create {
        3int
    } else {
        2
    };
    let opened = o.done >= 1 && o.done <= close;
    Traces {
        open: (if opened {
            1int
        } else {
            0
        }) - (if o.undone >= 1 {
            1int
        } else {
            0
        }),
        named: o.create && o.done >= 1 && o.undone < 2,
        mapped: o.done >= (if posix && o.create {
            3int
        } else {
            2
        }),
        zeroed: o.create && o.done == o.calls@.len(),
    }
}

proof fn lemma_run(opening: Opening, answers: Seq<bool>)
    requires
        opening.wf(),
        opening.done == 0,
        opening.failed is None,
    ensures
        ({
            let (o, t) = run(opening, answers);
            &&& o.wf()
            &&& o.platform == opening.platform
            &&& o.create == opening.create
            &&& o.name == opening.name
            &&& o.size == opening.size
            &&& t == expected(o)
        }),
    decreases answers.len(),
{
    if answers.len() > 0 {
        lemma_run(opening, answers.drop_last());
        let (o, t) = run(opening, answers.drop_last());
        let ok = answers.last();
        if let Next::Make(call) = o.needs() {
            let next = o.advanced(ok);
            assert(next.calls@ == plan(o.platform, o.create));
            match o.failed {
                Some(c) => {
                    assert(next.wf());
                    assert(effect(t, call, ok) == expected(next));
                },
                None => {
                    assert(next.wf());
                    assert(effect(t, call, ok) == expected(next));
                },
            }
        }
    }
}

/// Whatever goes wrong, a failed opening leaves nothing behind: no open descriptor or handle, no
/// mapping, and no name of its own; on Windows, where names vanish with their last handle, none
/// is removed. A successful one leaves a mapping, which a creator has filled with zeros, and on
/// POSIX no open descriptor.
pub proof fn law_nothing_leaks(opening: Opening, answers: Seq<bool>)
    requires
        opening.wf(),
        opening.done == 0,
        opening.failed is None,
    ensures
        ({
            let (o, t) = run(opening, answers);
            &&& o.needs() == Next::Explain ==> {
                &&& t.open == 0
                &&& !t.mapped
                &&& opening.platform == Platform::Posix ==> !t.named
            }
            &&& o.needs() == Next::Nothing ==> {
                &&& t.mapped
                &&& t.zeroed == opening.create
                &&& t.named == opening.create
                &&& t.open == if opening.platform == Platform::Posix {
                    0int
                } else {
                    1
                }
            }
        }),
{
    lemma_run(opening, answers);
    let (o, t) = run(opening, answers);
    if let Some(call) = o.failed {
        assert(call == o.calls@[o.done as int]);
    }
}

/// Giving a region back takes the mapping away and closes what is open; and on POSIX the creator
/// removes the name that it gave.
pub proof fn law_release(region: SharedRegion, t: Traces)
    requires
        t.mapped,
        t.named == region.is_creator,
        t.open == if region.platform == Platform::Posix {
            0int
        } else {
            1
        },
    ensures
        ({
            let end = region.release_plan().fold_left(
                t,
                |t: Traces, call: Call| effect(t, call, true),
            );
            &&& end.open == 0
            &&& !end.mapped
            &&& region.platform == Platform::Posix ==> !end.named
        }),
{
    let f = |t: Traces, call: Call| effect(t, call, true);
    let calls = region.release_plan();
    reveal_with_fuel(Seq::fold_left, 3);
    if calls.len() == 1 {
        assert(calls.drop_last() =~= Seq::<Call>::empty());
    } else {
        assert(calls.drop_last() =~= seq![Call::Unmap]);
        assert(calls.drop_last().drop_last() =~= Seq::<Call>::empty());
    }
}

/// The named memory objects of a system, with their bytes.
pub struct Objects {
    pub bytes: Map<Seq<char>, Seq<u8>>,
}

/// `n` zero bytes.
pub open spec fn zeros(n: nat) -> Seq<u8> {
    Seq::new(n, |i: int| 0u8)
}

/// What a system may make of its objects when an opening has it make a call, which goes well or
/// not. On POSIX an object is created only where there is none of that name, and empty; on
/// Windows one that is there already is opened. A name vanishes from Windows when the creator
/// closes its handle.
pub open spec fn may_become(a: Objects, b: Objects, o: Opening, call: Call, ok: bool) -> bool {
    let name = o.name@;
    match call {
        Call::CreateObject => if ok {
            if o.platform == Platform::Posix {
                !a.bytes.contains_key(name) && b.bytes == a.bytes.insert(name, Seq::empty())
            } else if a.bytes.contains_key(name) {
                b == a
            } else {
                b.bytes == a.bytes.insert(name, zeros(o.size as nat))
            }
        } else {
            b == a
        },
        Call::OpenObject => b == a && (ok ==> a.bytes.contains_key(name)),
        Call::SetSize => if ok {
            b.bytes == a.bytes.insert(name, zeros(o.size as nat))
        } else {
            b == a
        },
        Call::ZeroFill => b.bytes == a.bytes.insert(
            name,
            zeros(o.size as nat) + a.bytes[name].skip(o.size as int),
        ),
        Call::UnlinkName => b.bytes == a.bytes.remove(name),
        Call::CloseObject => b == a || (o.platform == Platform::Windows && o.create && b.bytes
            == a.bytes.remove(name)),
        Call::MapView | Call::Unmap => b == a,
    }
}

/// Whether a system may go from one state of its objects to another while an opening, which
/// stands as `o`, goes on by one call, if it needs one.
pub open spec fn one_step(a: Objects, b: Objects, o: Opening, ok: bool) -> bool {
    match o.needs() {
        Next::Make(call) => may_become(a, b, o, call, ok),
        _ => b == a,
    }
}

/// Whether a system went through these objects while an opening was carried on with these
/// answers.
pub open spec fn went_through(opening: Opening, objects: Seq<Objects>, answers: Seq<bool>) -> bool
    decreases answers.len(),
{
    if answers.len() == 0 {
        objects.len() == 1
    } else {
        &&& objects.len() == answers.len() + 1
        &&& went_through(opening, objects.drop_last(), answers.drop_last())
        &&& one_step(
            objects.drop_last().last(),
            objects.last(),
            run(opening, answers.drop_last()).0,
            answers.last(),
        )
    }
}

/// A step of opening an existing object.
proof fn lemma_open_step(o: Opening, a: Objects, b: Objects, ok: bool)
    requires
        o.wf(),
        !o.create,
        o.needs() is Make,
        one_step(a, b, o, ok),
    ensures
        b == a,
        o.advanced(ok).done > o.done == 0 ==> a.bytes.contains_key(o.name@),
{
}

/// What an opening of an existing object has made of the objects.
proof fn lemma_open_objects(opening: Opening, objects: Seq<Objects>, answers: Seq<bool>)
    requires
        opening.wf(),
        opening.done == 0,
        opening.failed is None,
        !opening.create,
        went_through(opening, objects, answers),
    ensures
        objects.last() == objects[0],
        run(opening, answers).0.done > 0 ==> objects[0].bytes.contains_key(opening.name@),
    decreases answers.len(),
{
    if answers.len() > 0 {
        lemma_open_objects(opening, objects.drop_last(), answers.drop_last());
        lemma_run(opening, answers.drop_last());
        let o = run(opening, answers.drop_last()).0;
        if o.needs() is Make {
            lemma_open_step(o, objects.drop_last().last(), objects.last(), answers.last());
        }
    }
}

/// A run of calls that all go well brings an opening on by one call each.
proof fn lemma_all_well(opening: Opening, answers: Seq<bool>)
    requires
        opening.wf(),
        opening.done == 0,
        opening.failed is None,
        forall|k: int| 0 <= k < answers.len() ==> answers[k],
    ensures
        ({
            let o = run(opening, answers).0;
            &&& o.failed is None
            &&& o.calls == opening.calls
            &&& o.done == if answers.len() < opening.calls@.len() {
                answers.len() as int
            } else {
                opening.calls@.len() as int
            }
        }),
    decreases answers.len(),
{
    if answers.len() > 0 {
        lemma_all_well(opening, answers.drop_last());
        lemma_run(opening, answers.drop_last());
    }
}

/// Opening a region creates no object and changes no byte of any. It fails where there is none of
/// that name; and where all calls go well it ends with a region of that name and size.
pub proof fn law_open_changes_nothing(opening: Opening, objects: Seq<Objects>, answers: Seq<bool>)
    requires
        opening.wf(),
        opening.done == 0,
        opening.failed is None,
        !opening.create,
        went_through(opening, objects, answers),
    ensures
        ({
            let o = run(opening, answers).0;
            &&& objects.last() == objects[0]
            &&& o.needs() is Nothing ==> {
                &&& objects[0].bytes.contains_key(opening.name@)
                &&& o.name == opening.name
                &&& o.size == opening.size
            }
            &&& (forall|k: int| 0 <= k < answers.len() ==> answers[k]) && answers.len()
                >= opening.calls@.len() ==> o.needs() is Nothing
        }),
{
    lemma_open_objects(opening, objects, answers);
    lemma_run(opening, answers);
    if forall|k: int| 0 <= k < answers.len() ==> answers[k] {
        lemma_all_well(opening, answers);
    }
}

/// What a creation on POSIX has made of the objects where it stands.
spec fn created(o: Opening, start: Map<Seq<char>, Seq<u8>>) -> Map<Seq<char>, Seq<u8>> {
    if o.done == 0 || o.undone == 2 {
        start
    } else if o.done == 1 {
        start.insert(o.name@, Seq::empty())
    } else {
        start.insert(o.name@, zeros(o.size as nat))
    }
}

/// A step of creating an object.
proof fn lemma_create_step(
    o: Opening,
    a: Objects,
    b: Objects,
    ok: bool,
    start: Map<Seq<char>, Seq<u8>>,
)
    requires
        o.wf(),
        o.create,
        o.platform == Platform::Posix,
        o.needs() is Make,
        one_step(a, b, o, ok),
        a.bytes == created(o, start),
        o.done > 0 ==> !start.contains_key(o.name@),
    ensures
        b.bytes == created(o.advanced(ok), start),
        o.advanced(ok).done > 0 ==> !start.contains_key(o.name@),
{
    let name = o.name@;
    let all = zeros(o.size as nat);
    let blank = start.insert(name, Seq::empty());
    let full = start.insert(name, all);
    assert(all + all.skip(o.size as int) =~= all);
    assert(blank.insert(name, all) =~= full);
    assert(full.insert(name, all) =~= full);
    if !start.contains_key(name) {
        assert(blank.remove(name) =~= start);
        assert(full.remove(name) =~= start);
    }
}

proof fn lemma_create_objects(opening: Opening, objects: Seq<Objects>, answers: Seq<bool>)
    requires
        opening.wf(),
        opening.done == 0,
        opening.failed is None,
        opening.create,
        opening.platform == Platform::Posix,
        went_through(opening, objects, answers),
    ensures
        ({
            let o = run(opening, answers).0;
            &&& objects.last().bytes == created(o, objects[0].bytes)
            &&& o.done > 0 ==> !objects[0].bytes.contains_key(opening.name@)
        }),
    decreases answers.len(),
{
    if answers.len() > 0 {
        lemma_create_objects(opening, objects.drop_last(), answers.drop_last());
        lemma_run(opening, answers.drop_last());
        let o = run(opening, answers.drop_last()).0;
        if o.needs() is Make {
            lemma_create_step(
                o,
                objects.drop_last().last(),
                objects.last(),
                answers.last(),
                objects[0].bytes,
            );
        }
    }
}

/// Creating a region on POSIX fails where there is an object of that name already. Where it
/// fails, the objects are what they were; where it succeeds there is a new one of that name, of
/// the region's size and all zeros, beside the others. And it succeeds where all calls go well.
pub proof fn law_create_is_all_or_nothing(
    opening: Opening,
    objects: Seq<Objects>,
    answers: Seq<bool>,
)
    requires
        opening.wf(),
        opening.done == 0,
        opening.failed is None,
        opening.create,
        opening.platform == Platform::Posix,
        went_through(opening, objects, answers),
    ensures
        ({
            let o = run(opening, answers).0;
            let start = objects[0].bytes;
            let end = objects.last().bytes;
            &&& o.needs() is Explain ==> end == start
            &&& o.needs() is Nothing ==> {
                &&& !start.contains_key(opening.name@)
                &&& end == start.insert(opening.name@, zeros(opening.size as nat))
                &&& o.name == opening.name
                &&& o.size == opening.size
            }
            &&& (forall|k: int| 0 <= k < answers.len() ==> answers[k]) && answers.len()
                >= opening.calls@.len() ==> o.needs() is Nothing
        }),
{
    lemma_create_objects(opening, objects, answers);
    lemma_run(opening, answers);
    if forall|k: int| 0 <= k < answers.len() ==> answers[k] {
        lemma_all_well(opening, answers);
    }
}

/// The bytes that a region shows.
pub open spec fn region_bytes(objects: Objects, region: SharedRegion) -> Seq<u8> {
    objects.bytes[region.name@].take(region.size as int)
}

/// The objects after a byte was written through a region.
pub open spec fn with_byte(objects: Objects, region: SharedRegion, at: int, v: u8) -> Objects {
    let name = region.name@;
    Objects { bytes: objects.bytes.insert(name, objects.bytes[name].update(at, v)) }
}

/// Two regions of one name show the same bytes, as far as both go: what is written through one is
/// read through the other.
pub proof fn law_regions_share_bytes(
    objects: Objects,
    a: SharedRegion,
    b: SharedRegion,
    at: int,
    v: u8,
)
    requires
        a.name@ == b.name@,
        objects.bytes.contains_key(a.name@),
        a.size <= objects.bytes[a.name@].len(),
        b.size <= objects.bytes[a.name@].len(),
        0 <= at < a.size,
        at < b.size,
    ensures
        region_bytes(objects, a)[at] == region_bytes(objects, b)[at],
        region_bytes(with_byte(objects, a, at, v), b) == region_bytes(objects, b).update(at, v),
{
    let name = a.name@;
    assert(region_bytes(with_byte(objects, a, at, v), b) =~= region_bytes(objects, b).update(
        at,
        v,
    ));
}

/// On POSIX a name is refused exactly if one of its characters is the null character, wherever it
/// is; on Windows none is. What is said gives the place of the first zero byte in the name that
/// the system would get, which has a slash in front.
pub proof fn law_names(platform: Platform, name: Seq<char>)
    ensures
        platform == Platform::Windows ==> !name_refused(platform, name),
        platform == Platform::Posix ==> (name_refused(platform, name) <==> exists|i: int|
            0 <= i < name.len() && #[trigger] name[i] == '\0'),
        name_refused(platform, name) ==> exists|at: nat|
            {
                let b = vstd::utf8::encode_utf8(name);
                &&& at < b.len()
                &&& b[at as int] == 0
                &&& forall|j: int| 0 <= j < at ==> #[trigger] b[j] != 0
                &&& name_complaint(name) == "nul byte found in provided data at position: "@
                    + #[trigger] text::decimal(at + 1)
            },
{
    let b = vstd::utf8::encode_utf8(name);
    let at = text::nul_at(b);
    text::lemma_nul_at(b);
    text::lemma_zero_bytes(name);
    if name.contains('\0') {
        let i = name.index_of('\0');
        assert(name[i] == '\0');
        assert(name_complaint(name) == "nul byte found in provided data at position: "@
            + text::decimal(at + 1));
    }
}

/// What is said of each call that failed, in front of the system's own words.
pub proof fn law_complaints()
    ensures
        complaint(Platform::Posix, Call::CreateObject) == "shm_open create failed: "@,
        complaint(Platform::Posix, Call::OpenObject) == "shm_open open failed: "@,
        complaint(Platform::Posix, Call::SetSize) == "ftruncate failed: "@,
        complaint(Platform::Posix, Call::MapView) == "mmap failed: "@,
        complaint(Platform::Windows, Call::CreateObject) == "CreateFileMappingA failed: "@,
        complaint(Platform::Windows, Call::OpenObject) == "OpenFileMappingA failed: "@,
        complaint(Platform::Windows, Call::MapView) == "MapViewOfFile failed: "@,
{
}

/// The calls of each opening, in their order.
pub proof fn law_plans()
    ensures
        plan(Platform::Posix, true) == seq![
            Call::CreateObject,
            Call::SetSize,
            Call::MapView,
            Call::CloseObject,
            Call::ZeroFill,
        ],
        plan(Platform::Posix, false) == seq![Call::OpenObject, Call::MapView, Call::CloseObject],
        plan(Platform::Windows, true) == seq![Call::CreateObject, Call::MapView, Call::ZeroFill],
        plan(Platform::Windows, false) == seq![Call::OpenObject, Call::MapView],
{
}

/// An opening stops exactly where a call fails that it cannot do without.
pub proof fn law_failures(o: Opening, ok: bool)
    requires
        o.wf(),
        o.failed is None,
        o.done < o.calls@.len(),
    ensures
        ({
            let call = o.calls@[o.done as int];
            let next = o.advanced(ok);
            &&& o.needs() == Next::Make(call)
            &&& next.failed is Some <==> !ok && call != Call::CloseObject && call != Call::ZeroFill
            &&& next.failed is Some ==> next.failed == Some(call) && next.done == o.done
            &&& next.failed is None ==> next.done == o.done + 1
            &&& next.name == o.name
            &&& next.size == o.size
        }),
{
    let call = o.calls@[o.done as int];
    assert(call != Call::Unmap && call != Call::UnlinkName);
}

/// Giving a region back starts with the mapping; the name goes with it exactly if a creator on
/// POSIX gives it back, and the handle is closed exactly on Windows.
pub proof fn law_release_calls(region: SharedRegion)
    ensures
        region.release_plan().len() > 0,
        region.release_plan()[0] == Call::Unmap,
        region.release_plan().contains(Call::UnlinkName) <==> region.platform == Platform::Posix
            && region.is_creator,
        region.release_plan().contains(Call::CloseObject) <==> region.platform
            == Platform::Windows,
        region.release_plan().len() == if region.platform == Platform::Posix
            && !region.is_creator {
            1int
        } else {
            2
        },
{
    let calls = region.release_plan();
    if calls.len() == 2 {
        assert(calls[1] == Call::UnlinkName || calls[1] == Call::CloseObject);
    }
}

} // verus!
