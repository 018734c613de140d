//! Normalizing raw watch notifications into a closed set of change events.

use vstd::prelude::*;
use crate::bytescan::lemma_first_at;
use crate::bytescan::find_byte;

verus! {

/// The kind of a raw notification as the watch mechanism classifies it.
///
/// The taxonomy is platform-dependent: creation, data modification and
/// removal each come in a precise file form, an ambiguous "any" form, a
/// folder form and an "other" form; metadata, rename and access
/// notifications carry no change of file content.
#[derive(Clone, Copy, Debug, PartialEq, Eq, Structural)]
pub enum RawKind {
    CreateFile,
    CreateFolder,
    CreateAny,
    CreateOther,
    ModifyData,
    ModifyMetadata,
    ModifyName,
    ModifyAny,
    ModifyOther,
    RemoveFile,
    RemoveFolder,
    RemoveAny,
    RemoveOther,
    Access,
    Any,
    Other,
}

/// The closed set of event classes the relay emits.
#[derive(Clone, Copy, Debug, PartialEq, Eq, Structural)]
pub enum EventClass {
    Create,
    Update,
    Delete,
}

/// One normalized filesystem change. `path` is the absolute path the watch
/// mechanism reported; `content` is the complete file body read at
/// observation time, possibly empty when the read raced a deletion.
#[derive(Debug)]
pub enum ChangeEvent {
    Create { path: Vec<u8>, content: Vec<u8> },
    Update { path: Vec<u8>, content: Vec<u8> },
    Delete { path: Vec<u8> },
}

impl ChangeEvent {
    /// The absolute path the event concerns.
    pub open spec fn path_view(self) -> Seq<u8> {
        match self {
            ChangeEvent::Create { path, .. } => path@,
            ChangeEvent::Update { path, .. } => path@,
            ChangeEvent::Delete { path } => path@,
        }
    }

    /// A path holding the frame separator could not be framed
    /// unambiguously, so such an event is malformed.
    pub open spec fn wf(self) -> bool {
        !self.path_view().contains(crate::NEWLINE)
    }

    /// Whether this event's path can be framed unambiguously.
    pub fn check_wf(&self) -> (r: bool)
        ensures
            r == self.wf(),
    {
        let path = match self {
            ChangeEvent::Create { path, .. } => path,
            ChangeEvent::Update { path, .. } => path,
            ChangeEvent::Delete { path } => path,
        };
        let p = find_byte(path.as_slice(), crate::NEWLINE);
        proof {
            lemma_first_at(path@, crate::NEWLINE);
        }
        p == path.len()
    }
}

/// Which class a notification kind maps to; `None` means the notification
/// is dropped. Ambiguous "any" kinds are kept, since on some platforms a
/// file creation or data change is only reported that vaguely; folder,
/// metadata, rename and access notifications produce nothing.
pub open spec fn spec_classify(kind: RawKind) -> Option<EventClass> {
    match kind {
        RawKind::CreateFile => Some(EventClass::Create),
        RawKind::CreateAny => Some(EventClass::Create),
        RawKind::ModifyData => Some(EventClass::Update),
        RawKind::ModifyAny => Some(EventClass::Update),
        RawKind::RemoveFile => Some(EventClass::Delete),
        RawKind::RemoveAny => Some(EventClass::Delete),
        _ => None,
    }
}

/// Classify one notification kind.
pub fn classify(kind: RawKind) -> (r: Option<EventClass>)
    ensures
        r == spec_classify(kind),
{
    match kind {
        RawKind::CreateFile => Some(EventClass::Create),
        RawKind::CreateAny => Some(EventClass::Create),
        RawKind::ModifyData => Some(EventClass::Update),
        RawKind::ModifyAny => Some(EventClass::Update),
        RawKind::RemoveFile => Some(EventClass::Delete),
        RawKind::RemoveAny => Some(EventClass::Delete),
        _ => None,
    }
}

/// The content an event carries for a read outcome: the bytes read, or
/// empty when the file vanished before it could be read.
pub open spec fn content_of_read(read: Option<Vec<u8>>) -> Seq<u8> {
    match read {
        Some(bytes) => bytes@,
        None => Seq::empty(),
    }
}

/// `ev` is the event of class `class` for `path`, carrying `content` when
/// the class calls for one.
pub open spec fn event_matches(ev: ChangeEvent, class: EventClass, path: Seq<u8>, content: Seq<u8>) -> bool {
    match class {
        EventClass::Create => ev matches ChangeEvent::Create { path: p, content: c } && p@ == path
            && c@ == content,
        EventClass::Update => ev matches ChangeEvent::Update { path: p, content: c } && p@ == path
            && c@ == content,
        EventClass::Delete => ev matches ChangeEvent::Delete { path: p } && p@ == path,
    }
}

/// Turn one raw notification into its change events.
///
/// A notification naming several paths expands to one event per path, in
/// the notification's own order. `reads[i]` is the outcome of reading
/// `paths[i]` at observation time: `None` (the file vanished) degrades to
/// an empty content rather than failing the pipeline. A kind outside the
/// closed set produces no event; a delete reads nothing.
pub fn normalize(kind: RawKind, paths: &Vec<Vec<u8>>, reads: &Vec<Option<Vec<u8>>>) -> (events: Vec<
    ChangeEvent,
>)
    requires
        reads@.len() == paths@.len(),
    ensures
        spec_classify(kind) is None ==> events@.len() == 0,
        spec_classify(kind) matches Some(class) ==> {
            &&& events@.len() == paths@.len()
            &&& forall|i: int|
                0 <= i < events@.len() ==> event_matches(
                    #[trigger] events@[i],
                    class,
                    paths@[i]@,
                    content_of_read(reads@[i]),
                )
        },
{
    let mut events: Vec<ChangeEvent> = Vec::new();
    let class_opt = classify(kind);
    let class = match class_opt {
        Some(class) => class,
        None => {
            return events;
        },
    };
    let n = paths.len();
    let mut i: usize = 0;
    while i < n
        invariant
            i <= n,
            n == paths@.len(),
            reads@.len() == paths@.len(),
            spec_classify(kind) == Some(class),
            events@.len() == i,
            forall|j: int|
                0 <= j < i ==> event_matches(
                    #[trigger] events@[j],
                    class,
                    paths@[j]@,
                    content_of_read(reads@[j]),
                ),
        decreases n - i,
    {
        let path = vstd::slice::slice_to_vec(paths[i].as_slice());
        let content = match &reads[i] {
            Some(bytes) => vstd::slice::slice_to_vec(bytes.as_slice()),
            None => Vec::new(),
        };
        let ev = match class {
            EventClass::Create => ChangeEvent::Create { path, content },
            EventClass::Update => ChangeEvent::Update { path, content },
            EventClass::Delete => ChangeEvent::Delete { path },
        };
        events.push(ev);
        i = i + 1;
    }
    events
}

} // verus!
