//! The application state machine: a registry of open documents, one of which
//! may be current, mutated exclusively through `State::process_command`. Each
//! command validates its preconditions and either applies its whole effect or
//! reports a `StateError` leaving the state exactly as it was.

pub mod error;

pub use self::error::StateError;

use crate::command::Command;
use crate::command::CommandModel;
use crate::sheet::AnimationModel;
use crate::sheet::Sheet;
use crate::sheet::SheetModel;
use vstd::prelude::*;

verus! {

/// Which list the content panel is showing.
#[derive(Clone, Copy, Debug, PartialEq, Eq, Structural)]
pub enum ContentTab {
    Frames,
    Animations,
}

/// The entity selected in the content panel.
pub enum ContentSelection {
    Frame(String),
}

/// The entity open for direct-manipulation editing in the workbench.
pub enum WorkbenchItem {
    Frame(String),
}

/// The frame path a content selection refers to.
pub open spec fn selection_model(s: Option<ContentSelection>) -> Option<Seq<char>> {
    match s {
        Some(ContentSelection::Frame(p)) => Some(p@),
        None => None,
    }
}

/// The frame path a workbench item refers to.
pub open spec fn item_model(s: Option<WorkbenchItem>) -> Option<Seq<char>> {
    match s {
        Some(WorkbenchItem::Frame(p)) => Some(p@),
        None => None,
    }
}

/// The character sequence an optional name holds.
pub open spec fn name_model(s: Option<String>) -> Option<Seq<char>> {
    match s {
        Some(n) => Some(n@),
        None => None,
    }
}

/// Mathematical value of a `Document`.
#[verifier::ext_equal]
pub ghost struct DocumentModel {
    pub source: Seq<char>,
    pub sheet: SheetModel,
    pub content_selection: Option<Seq<char>>,
    pub content_current_tab: ContentTab,
    pub content_rename_animation_target: Option<Seq<char>>,
    pub content_rename_animation_buffer: Option<Seq<char>>,
    pub workbench_item: Option<Seq<char>>,
    pub workbench_offset: (int, int),
    pub workbench_zoom_level: int,
}

/// One open editing session: a source path, the sheet it owns, and the
/// ephemeral interface state around it.
pub struct Document {
    source: String,
    sheet: Sheet,
    content_selection: Option<ContentSelection>,
    content_current_tab: ContentTab,
    content_rename_animation_target: Option<String>,
    content_rename_animation_buffer: Option<String>,
    workbench_item: Option<WorkbenchItem>,
    workbench_offset: (i64, i64),
    workbench_zoom_level: i32,
}

impl View for Document {
    type V = DocumentModel;

    closed spec fn view(&self) -> DocumentModel {
        DocumentModel {
            source: self.source@,
            sheet: self.sheet@,
            content_selection: selection_model(self.content_selection),
            content_current_tab: self.content_current_tab,
            content_rename_animation_target: name_model(self.content_rename_animation_target),
            content_rename_animation_buffer: name_model(self.content_rename_animation_buffer),
            workbench_item: item_model(self.workbench_item),
            workbench_offset: (self.workbench_offset.0 as int, self.workbench_offset.1 as int),
            workbench_zoom_level: self.workbench_zoom_level as int,
        }
    }
}

/// The zoom steps reachable through `ZoomIn` / `ZoomOut` / `ResetZoom`: a
/// doubling lattice that skips -1 and 0.
pub open spec fn zoom_level_valid(z: int) -> bool {
    z == -8 || z == -4 || z == -2 || z == 1 || z == 2 || z == 4 || z == 8 || z == 16
}

/// One `ZoomIn` transition: double a positive step, leave the reduction
/// regime from -2 straight to 1, otherwise halve the magnitude; never above
/// 16.
pub open spec fn zoom_in_step(z: int) -> int {
    let stepped = if z >= 1 {
        2 * z
    } else if z == -2 {
        1
    } else {
        z / 2
    };
    if stepped <= 16 {
        stepped
    } else {
        16
    }
}

/// One `ZoomOut` transition: halve a step above 1, enter the reduction
/// regime from 1 straight to -2, otherwise double the magnitude; never below
/// -8.
pub open spec fn zoom_out_step(z: int) -> int {
    let stepped = if z > 1 {
        z / 2
    } else if z == 1 {
        -2
    } else {
        2 * z
    };
    if stepped >= -8 {
        stepped
    } else {
        -8
    }
}

/// The workbench multiplier a zoom step stands for, as a fraction: a step
/// `n >= 1` means `n` times, a step `n <= -2` means `1 / |n|` times.
pub open spec fn zoom_factor_of(z: int) -> (int, int) {
    if z >= 1 {
        (z, 1)
    } else {
        (1, -z)
    }
}

impl DocumentModel {
    /// The ephemeral-state invariants of one document: the zoom step is on
    /// the lattice, selection and workbench item refer to frames the sheet
    /// has, a rename is either fully open (both target and buffer) or fully
    /// closed, and an open rename targets an existing animation.
    pub open spec fn wf(self) -> bool {
        &&& self.sheet.wf()
        &&& zoom_level_valid(self.workbench_zoom_level)
        &&& (self.content_selection matches Some(p) ==> self.sheet.has_frame(p))
        &&& (self.workbench_item matches Some(p) ==> self.sheet.has_frame(p))
        &&& (self.content_rename_animation_target is Some
            <==> self.content_rename_animation_buffer is Some)
        &&& (self.content_rename_animation_target matches Some(n) ==> self.sheet.has_anim(n))
    }

    /// A just-created document: an empty sheet and pristine interface state.
    pub open spec fn fresh(source: Seq<char>) -> DocumentModel {
        DocumentModel {
            source: source,
            sheet: SheetModel::empty(),
            content_selection: None,
            content_current_tab: ContentTab::Frames,
            content_rename_animation_target: None,
            content_rename_animation_buffer: None,
            workbench_item: None,
            workbench_offset: (0, 0),
            workbench_zoom_level: 1,
        }
    }

    /// A document just opened from a persisted sheet: pristine interface
    /// state around the given content.
    pub open spec fn opened(source: Seq<char>, sheet: SheetModel) -> DocumentModel {
        DocumentModel { sheet: sheet, ..DocumentModel::fresh(source) }
    }
}

impl Document {
    pub fn new(source: String) -> (d: Document)
        ensures
            d@ == DocumentModel::fresh(source@),
            d@.wf(),
    {
        let d = Document {
            source,
            sheet: Sheet::new(),
            content_selection: None,
            content_current_tab: ContentTab::Frames,
            content_rename_animation_target: None,
            content_rename_animation_buffer: None,
            workbench_item: None,
            workbench_offset: (0, 0),
            workbench_zoom_level: 1,
        };
        proof {
            assert(d@ =~~= DocumentModel::fresh(d@.source));
        }
        d
    }

    /// Wraps a sheet read back from persistent storage in a fresh editing
    /// session for the path it came from.
    pub fn open(source: String, sheet: Sheet) -> (d: Document)
        requires
            sheet@.wf(),
        ensures
            d@ == DocumentModel::opened(source@, sheet@),
            d@.wf(),
    {
        let d = Document {
            source,
            sheet,
            content_selection: None,
            content_current_tab: ContentTab::Frames,
            content_rename_animation_target: None,
            content_rename_animation_buffer: None,
            workbench_item: None,
            workbench_offset: (0, 0),
            workbench_zoom_level: 1,
        };
        proof {
            assert(d@ =~~= DocumentModel::opened(d@.source, d@.sheet));
        }
        d
    }

    pub fn get_source(&self) -> (r: &String)
        ensures
            r@ == self@.source,
    {
        &self.source
    }

    pub fn get_sheet(&self) -> (r: &Sheet)
        ensures
            r@ == self@.sheet,
    {
        &self.sheet
    }

    pub fn get_content_tab(&self) -> (r: &ContentTab)
        ensures
            *r == self@.content_current_tab,
    {
        &self.content_current_tab
    }

    pub fn get_content_selection(&self) -> (r: &Option<ContentSelection>)
        ensures
            selection_model(*r) == self@.content_selection,
    {
        &self.content_selection
    }

    pub fn get_animation_rename_target(&self) -> (r: &Option<String>)
        ensures
            name_model(*r) == self@.content_rename_animation_target,
    {
        &self.content_rename_animation_target
    }

    pub fn get_animation_rename_buffer(&self) -> (r: &Option<String>)
        ensures
            name_model(*r) == self@.content_rename_animation_buffer,
    {
        &self.content_rename_animation_buffer
    }

    pub fn get_workbench_item(&self) -> (r: &Option<WorkbenchItem>)
        ensures
            item_model(*r) == self@.workbench_item,
    {
        &self.workbench_item
    }
}

/// Removing an element keeps the remaining elements distinct.
proof fn lemma_remove_no_duplicates(s: Seq<Seq<char>>, i: int)
    requires
        0 <= i < s.len(),
        s.no_duplicates(),
    ensures
        s.remove(i).no_duplicates(),
{
    let t = s.remove(i);
    assert forall|x: int, y: int|
        0 <= x < t.len() && 0 <= y < t.len() && x != y implies t[x] != t[y] by {
        let mx = if x < i {
            x
        } else {
            x + 1
        };
        let my = if y < i {
            y
        } else {
            y + 1
        };
        assert(t[x] == s[mx]);
        assert(t[y] == s[my]);
    }
}

/// `v` clamped to the `i64` range.
pub open spec fn sat_i64(v: int) -> int {
    if v > i64::MAX {
        i64::MAX as int
    } else if v < i64::MIN {
        i64::MIN as int
    } else {
        v
    }
}

/// `a + b` clamped to the `i64` range.
fn sat_add_i64(a: i64, b: i64) -> (r: i64)
    ensures
        r as int == sat_i64(a + b),
{
    match a.checked_add(b) {
        Some(v) => v,
        None => if b > 0 {
            i64::MAX
        } else {
            i64::MIN
        },
    }
}

/// Effect of `SelectFrame` on the current document.
pub open spec fn doc_select_frame(d: DocumentModel, path: Seq<char>) -> DocumentModel {
    DocumentModel { content_selection: Some(path), ..d }
}

/// Effect of `EditFrame` on the current document: the frame opens in the
/// workbench and the pan offset returns to the origin.
pub open spec fn doc_edit_frame(d: DocumentModel, path: Seq<char>) -> DocumentModel {
    DocumentModel { workbench_item: Some(path), workbench_offset: (0, 0), ..d }
}

/// Effect of `SwitchToContentTab` on the current document.
pub open spec fn doc_set_tab(d: DocumentModel, tab: ContentTab) -> DocumentModel {
    DocumentModel { content_current_tab: tab, ..d }
}

/// Effect of `Import` of one image path on the current document.
pub open spec fn doc_import(d: DocumentModel, path: Seq<char>) -> DocumentModel {
    if d.sheet.has_frame(path) {
        d
    } else {
        DocumentModel {
            sheet: SheetModel { frames: d.sheet.frames.push(path), animations: d.sheet.animations },
            ..d
        }
    }
}

/// Effect of `ZoomIn` on the current document.
pub open spec fn doc_zoom_in(d: DocumentModel) -> DocumentModel {
    DocumentModel { workbench_zoom_level: zoom_in_step(d.workbench_zoom_level), ..d }
}

/// Effect of `ZoomOut` on the current document.
pub open spec fn doc_zoom_out(d: DocumentModel) -> DocumentModel {
    DocumentModel { workbench_zoom_level: zoom_out_step(d.workbench_zoom_level), ..d }
}

/// Effect of `ResetZoom` on the current document: step 1, multiplier 1.
pub open spec fn doc_reset_zoom(d: DocumentModel) -> DocumentModel {
    DocumentModel { workbench_zoom_level: 1, ..d }
}

/// Effect of `Pan` on the current document: the delta is added to the offset,
/// clamped only by the machine integer range.
pub open spec fn doc_pan(d: DocumentModel, dx: int, dy: int) -> DocumentModel {
    DocumentModel {
        workbench_offset: (
            sat_i64(d.workbench_offset.0 + dx),
            sat_i64(d.workbench_offset.1 + dy),
        ),
        ..d
    }
}

/// Effect of `BeginAnimationRename` on the current document: target and
/// buffer both start at the animation's present name.
pub open spec fn doc_begin_rename(d: DocumentModel, name: Seq<char>) -> DocumentModel {
    DocumentModel {
        content_rename_animation_target: Some(name),
        content_rename_animation_buffer: Some(name),
        ..d
    }
}

/// Effect of `UpdateAnimationRename` on the current document: the buffer is
/// overwritten while a rename is in progress; outside a rename the command is
/// tolerated and does nothing, so a half-open rename can never arise.
pub open spec fn doc_update_rename(d: DocumentModel, text: Seq<char>) -> DocumentModel {
    if d.content_rename_animation_target is Some {
        DocumentModel { content_rename_animation_buffer: Some(text), ..d }
    } else {
        d
    }
}

/// Effect of `EndAnimationRename` on the current document, and the failure it
/// reports: a buffer equal to the target commits nothing; a buffer colliding
/// with a different existing animation fails and leaves the rename open for
/// retry; otherwise the animation is renamed in the sheet. On success both
/// rename fields clear; with no rename in progress the command does nothing.
pub open spec fn doc_end_rename(d: DocumentModel) -> (DocumentModel, Option<StateError>) {
    match (d.content_rename_animation_target, d.content_rename_animation_buffer) {
        (Some(target), Some(buffer)) => if target == buffer {
            (
                DocumentModel {
                    content_rename_animation_target: None,
                    content_rename_animation_buffer: None,
                    ..d
                },
                None,
            )
        } else if d.sheet.has_anim(buffer) {
            (d, Some(StateError::AnimationAlreadyExists))
        } else {
            (
                DocumentModel {
                    sheet: SheetModel {
                        frames: d.sheet.frames,
                        animations: d.sheet.animations.update(
                            d.sheet.anim_index(target),
                            AnimationModel {
                                name: buffer,
                                ..d.sheet.animations[d.sheet.anim_index(target)]
                            },
                        ),
                    },
                    content_rename_animation_target: None,
                    content_rename_animation_buffer: None,
                    ..d
                },
                None,
            )
        },
        _ => (d, None),
    }
}

/// Effect of `CreateAnimation` on the current document: a new empty animation
/// under a generated free name, immediately open for rename.
pub open spec fn doc_create_animation(d: DocumentModel) -> DocumentModel {
    let name = crate::sheet::gen_anim_name(d.sheet.anim_names());
    DocumentModel {
        sheet: SheetModel {
            frames: d.sheet.frames,
            animations: d.sheet.animations.push(
                AnimationModel { name: name, timeline: Seq::empty(), is_looping: false },
            ),
        },
        content_rename_animation_target: Some(name),
        content_rename_animation_buffer: Some(name),
        ..d
    }
}

/// Mathematical value of a `State`.
#[verifier::ext_equal]
pub ghost struct StateModel {
    pub documents: Seq<DocumentModel>,
    pub current_document: Option<Seq<char>>,
}

impl StateModel {
    /// The source paths of the open documents, in registry order.
    pub open spec fn sources(self) -> Seq<Seq<char>> {
        self.documents.map(|i: int, d: DocumentModel| d.source)
    }

    pub open spec fn is_open(self, path: Seq<char>) -> bool {
        exists|i: int| 0 <= i < self.documents.len() && self.documents[i].source == path
    }

    /// The registry index of the document at `path` (meaningful when
    /// `is_open` holds; unique under `wf`).
    pub open spec fn doc_index(self, path: Seq<char>) -> int {
        choose|i: int| 0 <= i < self.documents.len() && self.documents[i].source == path
    }

    pub open spec fn has_current(self) -> bool {
        self.current_document is Some
    }

    pub open spec fn current_index(self) -> int {
        self.doc_index(self.current_document->0)
    }

    pub open spec fn current_doc(self) -> DocumentModel {
        self.documents[self.current_index()]
    }

    /// The whole-application invariants: no two open documents share a source
    /// path, the current identity (when set) is an open path, and every
    /// document is itself well-formed.
    pub open spec fn wf(self) -> bool {
        &&& self.sources().no_duplicates()
        &&& (forall|i: int|
            0 <= i < self.documents.len() ==> (#[trigger] self.documents[i]).wf())
        &&& (self.current_document matches Some(p) ==> self.is_open(p))
    }

    /// `self` with the current document replaced by `d`.
    pub open spec fn update_current(self, d: DocumentModel) -> StateModel {
        StateModel { documents: self.documents.update(self.current_index(), d), ..self }
    }

    /// `is_open` said over the source sequence.
    pub proof fn lemma_is_open_sources(self, path: Seq<char>)
        ensures
            self.is_open(path) <==> self.sources().contains(path),
    {
        if self.is_open(path) {
            let i = choose|i: int|
                0 <= i < self.documents.len() && self.documents[i].source == path;
            assert(self.sources()[i] == path);
        }
        if self.sources().contains(path) {
            let i = choose|i: int|
                0 <= i < self.sources().len() && self.sources()[i] == path;
            assert(self.documents[i].source == path);
        }
    }
}

/// Mathematical value of a `SaveRequest`.
#[verifier::ext_equal]
pub ghost struct SaveRequestModel {
    pub source: Seq<char>,
    pub sheet: SheetModel,
}

/// One pending write: the sheet content to persist and the path to persist it
/// at. The state machine produces these; the surrounding program performs
/// them.
#[derive(Debug)]
pub struct SaveRequest {
    source: String,
    sheet: Sheet,
}

impl View for SaveRequest {
    type V = SaveRequestModel;

    closed spec fn view(&self) -> SaveRequestModel {
        SaveRequestModel { source: self.source@, sheet: self.sheet@ }
    }
}

impl SaveRequest {
    pub fn get_source(&self) -> (r: &String)
        ensures
            r@ == self@.source,
    {
        &self.source
    }

    pub fn get_sheet(&self) -> (r: &Sheet)
        ensures
            r@ == self@.sheet,
    {
        &self.sheet
    }
}

/// The write that persists document `d`.
pub open spec fn save_request_of(d: DocumentModel) -> SaveRequestModel {
    SaveRequestModel { source: d.source, sheet: d.sheet }
}

/// The writes that persist every document, in registry order.
pub open spec fn save_requests_of(docs: Seq<DocumentModel>) -> Seq<SaveRequestModel> {
    docs.map(|i: int, d: DocumentModel| save_request_of(d))
}

/// `pre` with its current document replaced by `d`, when one is current.
pub open spec fn step_current(pre: StateModel, d: DocumentModel) -> StateModel {
    if pre.has_current() {
        pre.update_current(d)
    } else {
        pre
    }
}

/// The failure `process_command` reports for `c` against `pre`, if any; a
/// command that fails changes nothing.
pub open spec fn step_error(pre: StateModel, c: CommandModel) -> Option<StateError> {
    match c {
        CommandModel::NewDocument(_) => None,
        CommandModel::OpenDocument(_, _) => None,
        CommandModel::FocusDocument(_) => None,
        CommandModel::CloseAllDocuments => None,
        CommandModel::SaveCurrentDocumentAs(p) => if !pre.has_current() {
            Some(StateError::NoDocumentOpen)
        } else if p != pre.current_doc().source && pre.is_open(p) {
            Some(StateError::DocumentAlreadyOpen)
        } else {
            None
        },
        CommandModel::SaveAllDocuments => if pre.documents.len() == 0 {
            Some(StateError::NoDocumentOpen)
        } else {
            None
        },
        CommandModel::SelectFrame(p) => if !pre.has_current() {
            Some(StateError::NoDocumentOpen)
        } else if !pre.current_doc().sheet.has_frame(p) {
            Some(StateError::FrameNotInDocument)
        } else {
            None
        },
        CommandModel::EditFrame(p) => if !pre.has_current() {
            Some(StateError::NoDocumentOpen)
        } else if !pre.current_doc().sheet.has_frame(p) {
            Some(StateError::FrameNotInDocument)
        } else {
            None
        },
        CommandModel::BeginAnimationRename(n) => if !pre.has_current() {
            Some(StateError::NoDocumentOpen)
        } else if !pre.current_doc().sheet.has_anim(n) {
            Some(StateError::AnimationNotInDocument)
        } else {
            None
        },
        CommandModel::EndAnimationRename => if !pre.has_current() {
            Some(StateError::NoDocumentOpen)
        } else {
            doc_end_rename(pre.current_doc()).1
        },
        _ => if pre.has_current() {
            None
        } else {
            Some(StateError::NoDocumentOpen)
        },
    }
}

/// The state after `c` is applied to `pre`; meaningful when
/// `step_error(pre, c)` is `None`.
pub open spec fn step_state(pre: StateModel, c: CommandModel) -> StateModel {
    match c {
        CommandModel::NewDocument(p) => StateModel {
            documents: if pre.is_open(p) {
                pre.documents.update(pre.doc_index(p), DocumentModel::fresh(p))
            } else {
                pre.documents.push(DocumentModel::fresh(p))
            },
            current_document: Some(p),
        },
        CommandModel::OpenDocument(p, sh) => StateModel {
            documents: if pre.is_open(p) {
                pre.documents
            } else {
                pre.documents.push(DocumentModel::opened(p, sh))
            },
            current_document: Some(p),
        },
        CommandModel::FocusDocument(p) => if pre.is_open(p) {
            StateModel { current_document: Some(p), ..pre }
        } else {
            pre
        },
        CommandModel::CloseCurrentDocument => if pre.has_current() {
            let remaining = pre.documents.remove(pre.current_index());
            StateModel {
                documents: remaining,
                current_document: if remaining.len() == 0 {
                    None
                } else {
                    Some(
                        remaining[if pre.current_index() < remaining.len() {
                            pre.current_index()
                        } else {
                            remaining.len() - 1
                        }].source,
                    )
                },
            }
        } else {
            pre
        },
        CommandModel::CloseAllDocuments => StateModel {
            documents: Seq::empty(),
            current_document: None,
        },
        CommandModel::SaveCurrentDocument => pre,
        CommandModel::SaveCurrentDocumentAs(p) => if pre.has_current() {
            StateModel {
                documents: pre.documents.update(
                    pre.current_index(),
                    DocumentModel { source: p, ..pre.current_doc() },
                ),
                current_document: Some(p),
            }
        } else {
            pre
        },
        CommandModel::SaveAllDocuments => pre,
        CommandModel::SwitchToContentTab(t) => step_current(pre, doc_set_tab(pre.current_doc(), t)),
        CommandModel::Import(p) => step_current(pre, doc_import(pre.current_doc(), p)),
        CommandModel::SelectFrame(p) => step_current(pre, doc_select_frame(pre.current_doc(), p)),
        CommandModel::EditFrame(p) => step_current(pre, doc_edit_frame(pre.current_doc(), p)),
        CommandModel::CreateAnimation => step_current(pre, doc_create_animation(pre.current_doc())),
        CommandModel::BeginAnimationRename(n) => step_current(
            pre,
            doc_begin_rename(pre.current_doc(), n),
        ),
        CommandModel::UpdateAnimationRename(n) => step_current(
            pre,
            doc_update_rename(pre.current_doc(), n),
        ),
        CommandModel::EndAnimationRename => step_current(pre, doc_end_rename(pre.current_doc()).0),
        CommandModel::ZoomIn => step_current(pre, doc_zoom_in(pre.current_doc())),
        CommandModel::ZoomOut => step_current(pre, doc_zoom_out(pre.current_doc())),
        CommandModel::ResetZoom => step_current(pre, doc_reset_zoom(pre.current_doc())),
        CommandModel::Pan(dx, dy) => step_current(pre, doc_pan(pre.current_doc(), dx, dy)),
    }
}

/// The writes `c` asks the surrounding program to perform against `pre`;
/// meaningful when `step_error(pre, c)` is `None`. Only the save commands
/// produce writes.
pub open spec fn step_saves(pre: StateModel, c: CommandModel) -> Seq<SaveRequestModel> {
    match c {
        CommandModel::SaveCurrentDocument => seq![save_request_of(pre.current_doc())],
        CommandModel::SaveCurrentDocumentAs(p) => seq![
            SaveRequestModel { source: p, sheet: pre.current_doc().sheet },
        ],
        CommandModel::SaveAllDocuments => save_requests_of(pre.documents),
        _ => Seq::empty(),
    }
}

/// The process-wide registry of open documents plus which one is current;
/// mutated exclusively through `process_command`.
pub struct State {
    documents: Vec<Document>,
    current_document: Option<String>,
}

impl View for State {
    type V = StateModel;

    closed spec fn view(&self) -> StateModel {
        StateModel {
            documents: self.documents@.map(|i: int, d: Document| d@),
            current_document: name_model(self.current_document),
        }
    }
}

impl State {
    pub fn new() -> (s: State)
        ensures
            s@.documents == Seq::<DocumentModel>::empty(),
            s@.current_document is None,
            s@.wf(),
    {
        let s = State { documents: Vec::new(), current_document: None };
        proof {
            assert(s@.documents =~= Seq::<DocumentModel>::empty());
        }
        s
    }

    /// The registry index of the document at `path`, when one is open there.
    fn find_document(&self, path: &String) -> (r: Option<usize>)
        ensures
            match r {
                Some(i) => i < self@.documents.len() && self@.documents[i as int].source == path@,
                None => !self@.is_open(path@),
            },
    {
        let mut i: usize = 0;
        while i < self.documents.len()
            invariant
                i <= self.documents.len(),
                forall|j: int| 0 <= j < i ==> self@.documents[j].source != path@,
            decreases self.documents.len() - i,
        {
            if self.documents[i].source.eq(path) {
                assert(self@.documents[i as int].source == path@);
                return Some(i);
            }
            i += 1;
        }
        None
    }

    /// The registry index of the current document, when one is set.
    fn find_current(&self) -> (r: Option<usize>)
        requires
            self@.wf(),
        ensures
            match r {
                Some(i) => self@.has_current() && i == self@.current_index() && i
                    < self@.documents.len(),
                None => !self@.has_current(),
            },
    {
        let r = match &self.current_document {
            Some(p) => self.find_document(p),
            None => None,
        };
        proof {
            if self@.current_document is Some {
                let p = self@.current_document->0;
                assert(self@.is_open(p));
                if r is Some {
                    let i = r->0;
                    let k = self@.current_index();
                    assert(self@.sources()[i as int] == p);
                    assert(self@.sources()[k] == p);
                }
            }
        }
        r
    }

    pub fn get_current_document(&self) -> (r: Option<&Document>)
        requires
            self@.wf(),
        ensures
            match r {
                Some(d) => self@.has_current() && d@ == self@.current_doc(),
                None => !self@.has_current(),
            },
    {
        match self.find_current() {
            Some(i) => Some(&self.documents[i]),
            None => None,
        }
    }

    /// The open documents, in registry order.
    pub fn documents_iter(&self) -> (r: &Vec<Document>)
        ensures
            r@.map(|i: int, d: Document| d@) == self@.documents,
    {
        &self.documents
    }

    /// Creates (or resets) the document at `path` to a fresh empty one and
    /// makes it current. A document already open at `path` loses its content
    /// and interface state; no second document appears for it.
    fn new_document(&mut self, path: String)
        requires
            old(self)@.wf(),
        ensures
            final(self)@.wf(),
            final(self)@.current_document == Some(path@),
            old(self)@.is_open(path@) ==> final(self)@.documents == old(self)@.documents.update(
                old(self)@.doc_index(path@),
                DocumentModel::fresh(path@),
            ),
            !old(self)@.is_open(path@) ==> final(self)@.documents == old(self)@.documents.push(
                DocumentModel::fresh(path@),
            ),
    {
        let ghost pre = self@;
        match self.find_document(&path) {
            Some(i) => {
                self.documents.remove(i);
                self.documents.insert(i, Document::new(path.clone()));
                proof {
                    let k = pre.doc_index(path@);
                    assert(pre.sources()[i as int] == path@);
                    assert(pre.sources()[k] == path@);
                    assert(k == i);
                    assert(self@.documents =~= pre.documents.update(k, DocumentModel::fresh(path@)));
                    assert(self@.sources() =~= pre.sources());
                }
            },
            None => {
                self.documents.push(Document::new(path.clone()));
                proof {
                    assert(self@.documents =~= pre.documents.push(DocumentModel::fresh(path@)));
                    assert(self@.sources() =~= pre.sources().push(path@));
                    pre.lemma_is_open_sources(path@);
                }
            },
        }
        self.current_document = Some(path);
        proof {
            let n = self@.documents.len();
            assert(self@.documents[n - 1].source == path@ || self@.documents[pre.doc_index(path@)].source == path@);
            assert(self@.is_open(path@));
        }
    }

    /// Registers `sheet`, read back from `path`, as an open document and
    /// makes it current. A path already open is only refocused: no second
    /// document is created and the existing document is untouched.
    fn open_document(&mut self, path: String, sheet: Sheet)
        requires
            old(self)@.wf(),
            sheet@.wf(),
        ensures
            final(self)@.wf(),
            final(self)@.current_document == Some(path@),
            old(self)@.is_open(path@) ==> final(self)@.documents == old(self)@.documents,
            !old(self)@.is_open(path@) ==> final(self)@.documents == old(self)@.documents.push(
                DocumentModel::opened(path@, sheet@),
            ),
    {
        let ghost pre = self@;
        match self.find_document(&path) {
            Some(i) => {
                proof {
                    assert(self@.is_open(path@));
                }
            },
            None => {
                self.documents.push(Document::open(path.clone(), sheet));
                proof {
                    assert(self@.documents =~= pre.documents.push(
                        DocumentModel::opened(path@, sheet@),
                    ));
                    assert(self@.sources() =~= pre.sources().push(path@));
                    pre.lemma_is_open_sources(path@);
                }
            },
        }
        self.current_document = Some(path);
        proof {
            if pre.is_open(path@) {
                let k = pre.doc_index(path@);
                assert(self@.documents[k].source == path@);
            } else {
                let n = self@.documents.len();
                assert(self@.documents[n - 1].source == path@);
            }
            assert(self@.is_open(path@));
        }
    }

    /// Removes the current document; focus falls to the document now at the
    /// closed one's index, or to the new last document, or to none.
    fn close_current_document(&mut self) -> (r: Result<(), StateError>)
        requires
            old(self)@.wf(),
        ensures
            final(self)@.wf(),
            !old(self)@.has_current() ==> r == Err::<(), StateError>(StateError::NoDocumentOpen)
                && final(self)@ == old(self)@,
            old(self)@.has_current() ==> {
                let i = old(self)@.current_index();
                let remaining = old(self)@.documents.remove(i);
                &&& r == Ok::<(), StateError>(())
                &&& final(self)@.documents == remaining
                &&& (remaining.len() == 0 ==> final(self)@.current_document is None)
                &&& (remaining.len() > 0 ==> final(self)@.current_document == Some(
                    remaining[if i < remaining.len() {
                        i
                    } else {
                        remaining.len() - 1
                    }].source,
                ))
            },
    {
        let ghost pre = self@;
        let i = match self.find_current() {
            Some(i) => i,
            None => {
                return Err(StateError::NoDocumentOpen);
            },
        };
        self.documents.remove(i);
        proof {
            assert(self@.documents =~= pre.documents.remove(i as int));
            assert(self@.sources() =~= pre.sources().remove(i as int));
            lemma_remove_no_duplicates(pre.sources(), i as int);
        }
        if self.documents.len() == 0 {
            self.current_document = None;
        } else {
            let j = if i < self.documents.len() {
                i
            } else {
                self.documents.len() - 1
            };
            self.current_document = Some(self.documents[j].source.clone());
            proof {
                assert(self@.documents[j as int].source == self.documents@[j as int]@.source);
                assert(self@.is_open(self@.documents[j as int].source));
            }
        }
        Ok(())
    }

    /// Applies the per-document transition `f` (whose result is `d`) to the
    /// document at the current index, as remove-mutate-insert; this seals the
    /// bookkeeping: same sources, same current identity, well-formed whole.
    proof fn lemma_update_current(pre: StateModel, post: StateModel, d: DocumentModel)
        requires
            pre.wf(),
            pre.has_current(),
            d.wf(),
            d.source == pre.current_doc().source,
            post.documents == pre.documents.update(pre.current_index(), d),
            post.current_document == pre.current_document,
        ensures
            post.wf(),
            post == pre.update_current(d),
    {
        let i = pre.current_index();
        let p = pre.current_document->0;
        assert(0 <= i < pre.documents.len() && pre.documents[i].source == p);
        assert(post.sources() =~= pre.sources());
        assert(post.documents[i].source == p);
        assert(post.is_open(p));
        assert(post =~= pre.update_current(d));
    }

    /// Switches which list the content panel of the current document shows.
    fn switch_to_content_tab(&mut self, tab: ContentTab) -> (r: Result<(), StateError>)
        requires
            old(self)@.wf(),
        ensures
            final(self)@.wf(),
            !old(self)@.has_current() ==> r == Err::<(), StateError>(StateError::NoDocumentOpen)
                && final(self)@ == old(self)@,
            old(self)@.has_current() ==> r == Ok::<(), StateError>(()) && final(self)@ == old(
                self,
            )@.update_current(doc_set_tab(old(self)@.current_doc(), tab)),
    {
        let ghost pre = self@;
        let i = match self.find_current() {
            Some(i) => i,
            None => {
                return Err(StateError::NoDocumentOpen);
            },
        };
        let mut doc = self.documents.remove(i);
        doc.content_current_tab = tab;
        let ghost d2 = doc@;
        self.documents.insert(i, doc);
        proof {
            assert(self@.documents =~= pre.documents.update(i as int, d2));
            assert(d2 =~~= doc_set_tab(pre.current_doc(), tab));
            Self::lemma_update_current(pre, self@, d2);
        }
        Ok(())
    }

    /// Selects the frame at `path` in the current document's content panel.
    fn select_frame(&mut self, path: &String) -> (r: Result<(), StateError>)
        requires
            old(self)@.wf(),
        ensures
            final(self)@.wf(),
            !old(self)@.has_current() ==> r == Err::<(), StateError>(StateError::NoDocumentOpen)
                && final(self)@ == old(self)@,
            old(self)@.has_current() && !old(self)@.current_doc().sheet.has_frame(path@) ==> r
                == Err::<(), StateError>(StateError::FrameNotInDocument) && final(self)@ == old(
                self,
            )@,
            old(self)@.has_current() && old(self)@.current_doc().sheet.has_frame(path@) ==> r
                == Ok::<(), StateError>(()) && final(self)@ == old(self)@.update_current(
                doc_select_frame(old(self)@.current_doc(), path@),
            ),
    {
        let ghost pre = self@;
        let i = match self.find_current() {
            Some(i) => i,
            None => {
                return Err(StateError::NoDocumentOpen);
            },
        };
        if !self.documents[i].sheet.has_frame(path) {
            return Err(StateError::FrameNotInDocument);
        }
        let mut doc = self.documents.remove(i);
        doc.content_selection = Some(ContentSelection::Frame(path.clone()));
        let ghost d2 = doc@;
        self.documents.insert(i, doc);
        proof {
            assert(self@.documents =~= pre.documents.update(i as int, d2));
            assert(d2 =~~= doc_select_frame(pre.current_doc(), path@));
            Self::lemma_update_current(pre, self@, d2);
        }
        Ok(())
    }

    /// Opens the frame at `path` in the current document's workbench and
    /// resets the pan offset.
    fn edit_frame(&mut self, path: &String) -> (r: Result<(), StateError>)
        requires
            old(self)@.wf(),
        ensures
            final(self)@.wf(),
            !old(self)@.has_current() ==> r == Err::<(), StateError>(StateError::NoDocumentOpen)
                && final(self)@ == old(self)@,
            old(self)@.has_current() && !old(self)@.current_doc().sheet.has_frame(path@) ==> r
                == Err::<(), StateError>(StateError::FrameNotInDocument) && final(self)@ == old(
                self,
            )@,
            old(self)@.has_current() && old(self)@.current_doc().sheet.has_frame(path@) ==> r
                == Ok::<(), StateError>(()) && final(self)@ == old(self)@.update_current(
                doc_edit_frame(old(self)@.current_doc(), path@),
            ),
    {
        let ghost pre = self@;
        let i = match self.find_current() {
            Some(i) => i,
            None => {
                return Err(StateError::NoDocumentOpen);
            },
        };
        if !self.documents[i].sheet.has_frame(path) {
            return Err(StateError::FrameNotInDocument);
        }
        let mut doc = self.documents.remove(i);
        doc.workbench_item = Some(WorkbenchItem::Frame(path.clone()));
        doc.workbench_offset = (0, 0);
        let ghost d2 = doc@;
        self.documents.insert(i, doc);
        proof {
            assert(self@.documents =~= pre.documents.update(i as int, d2));
            assert(d2 =~~= doc_edit_frame(pre.current_doc(), path@));
            Self::lemma_update_current(pre, self@, d2);
        }
        Ok(())
    }

    /// Adds the image at `path` to the current document's sheet as a new
    /// frame; a path already present is kept as it is.
    fn import(&mut self, path: &String) -> (r: Result<(), StateError>)
        requires
            old(self)@.wf(),
        ensures
            final(self)@.wf(),
            !old(self)@.has_current() ==> r == Err::<(), StateError>(StateError::NoDocumentOpen)
                && final(self)@ == old(self)@,
            old(self)@.has_current() ==> r == Ok::<(), StateError>(()) && final(self)@ == old(
                self,
            )@.update_current(doc_import(old(self)@.current_doc(), path@)),
    {
        let ghost pre = self@;
        let i = match self.find_current() {
            Some(i) => i,
            None => {
                return Err(StateError::NoDocumentOpen);
            },
        };
        let mut doc = self.documents.remove(i);
        doc.sheet.add_frame(path);
        let ghost d2 = doc@;
        self.documents.insert(i, doc);
        proof {
            assert(self@.documents =~= pre.documents.update(i as int, d2));
            assert(d2 =~~= doc_import(pre.current_doc(), path@));
            let cur = pre.current_doc();
            if cur.content_selection is Some {
                let p = cur.content_selection->0;
                let j = choose|j: int| 0 <= j < cur.sheet.frames.len() && cur.sheet.frames[j] == p;
                assert(d2.sheet.frames[j] == p);
            }
            if cur.workbench_item is Some {
                let p = cur.workbench_item->0;
                let j = choose|j: int| 0 <= j < cur.sheet.frames.len() && cur.sheet.frames[j] == p;
                assert(d2.sheet.frames[j] == p);
            }
            Self::lemma_update_current(pre, self@, d2);
        }
        Ok(())
    }

    /// One zoom-in step on the current document's workbench.
    fn zoom_in(&mut self) -> (r: Result<(), StateError>)
        requires
            old(self)@.wf(),
        ensures
            final(self)@.wf(),
            !old(self)@.has_current() ==> r == Err::<(), StateError>(StateError::NoDocumentOpen)
                && final(self)@ == old(self)@,
            old(self)@.has_current() ==> r == Ok::<(), StateError>(()) && final(self)@ == old(
                self,
            )@.update_current(doc_zoom_in(old(self)@.current_doc())),
    {
        let ghost pre = self@;
        let i = match self.find_current() {
            Some(i) => i,
            None => {
                return Err(StateError::NoDocumentOpen);
            },
        };
        let mut doc = self.documents.remove(i);
        let z = doc.workbench_zoom_level;
        let stepped: i32 = if z >= 1 {
            2 * z
        } else if z == -2 {
            1
        } else if z == -4 {
            -2
        } else {
            -4
        };
        doc.workbench_zoom_level = if stepped <= 16 {
            stepped
        } else {
            16
        };
        let ghost d2 = doc@;
        self.documents.insert(i, doc);
        proof {
            assert(self@.documents =~= pre.documents.update(i as int, d2));
            assert(d2 =~~= doc_zoom_in(pre.current_doc()));
            Self::lemma_update_current(pre, self@, d2);
        }
        Ok(())
    }

    /// One zoom-out step on the current document's workbench.
    fn zoom_out(&mut self) -> (r: Result<(), StateError>)
        requires
            old(self)@.wf(),
        ensures
            final(self)@.wf(),
            !old(self)@.has_current() ==> r == Err::<(), StateError>(StateError::NoDocumentOpen)
                && final(self)@ == old(self)@,
            old(self)@.has_current() ==> r == Ok::<(), StateError>(()) && final(self)@ == old(
                self,
            )@.update_current(doc_zoom_out(old(self)@.current_doc())),
    {
        let ghost pre = self@;
        let i = match self.find_current() {
            Some(i) => i,
            None => {
                return Err(StateError::NoDocumentOpen);
            },
        };
        let mut doc = self.documents.remove(i);
        let z = doc.workbench_zoom_level;
        let stepped: i32 = if z > 1 {
            z / 2
        } else if z == 1 {
            -2
        } else {
            2 * z
        };
        doc.workbench_zoom_level = if stepped >= -8 {
            stepped
        } else {
            -8
        };
        let ghost d2 = doc@;
        self.documents.insert(i, doc);
        proof {
            assert(self@.documents =~= pre.documents.update(i as int, d2));
            assert(d2 =~~= doc_zoom_out(pre.current_doc()));
            Self::lemma_update_current(pre, self@, d2);
        }
        Ok(())
    }

    /// Returns the current document's workbench zoom to step 1.
    fn reset_zoom(&mut self) -> (r: Result<(), StateError>)
        requires
            old(self)@.wf(),
        ensures
            final(self)@.wf(),
            !old(self)@.has_current() ==> r == Err::<(), StateError>(StateError::NoDocumentOpen)
                && final(self)@ == old(self)@,
            old(self)@.has_current() ==> r == Ok::<(), StateError>(()) && final(self)@ == old(
                self,
            )@.update_current(doc_reset_zoom(old(self)@.current_doc())),
    {
        let ghost pre = self@;
        let i = match self.find_current() {
            Some(i) => i,
            None => {
                return Err(StateError::NoDocumentOpen);
            },
        };
        let mut doc = self.documents.remove(i);
        doc.workbench_zoom_level = 1;
        let ghost d2 = doc@;
        self.documents.insert(i, doc);
        proof {
            assert(self@.documents =~= pre.documents.update(i as int, d2));
            assert(d2 =~~= doc_reset_zoom(pre.current_doc()));
            Self::lemma_update_current(pre, self@, d2);
        }
        Ok(())
    }

    /// Adds `(dx, dy)` to the current document's workbench pan offset.
    fn pan(&mut self, dx: i64, dy: i64) -> (r: Result<(), StateError>)
        requires
            old(self)@.wf(),
        ensures
            final(self)@.wf(),
            !old(self)@.has_current() ==> r == Err::<(), StateError>(StateError::NoDocumentOpen)
                && final(self)@ == old(self)@,
            old(self)@.has_current() ==> r == Ok::<(), StateError>(()) && final(self)@ == old(
                self,
            )@.update_current(doc_pan(old(self)@.current_doc(), dx as int, dy as int)),
    {
        let ghost pre = self@;
        let i = match self.find_current() {
            Some(i) => i,
            None => {
                return Err(StateError::NoDocumentOpen);
            },
        };
        let mut doc = self.documents.remove(i);
        doc.workbench_offset = (
            sat_add_i64(doc.workbench_offset.0, dx),
            sat_add_i64(doc.workbench_offset.1, dy),
        );
        let ghost d2 = doc@;
        self.documents.insert(i, doc);
        proof {
            assert(self@.documents =~= pre.documents.update(i as int, d2));
            assert(d2 =~~= doc_pan(pre.current_doc(), dx as int, dy as int));
            Self::lemma_update_current(pre, self@, d2);
        }
        Ok(())
    }

    /// Starts a rename transaction on the animation called `name` in the
    /// current document: target and buffer both become `name`.
    fn begin_animation_rename(&mut self, name: &String) -> (r: Result<(), StateError>)
        requires
            old(self)@.wf(),
        ensures
            final(self)@.wf(),
            !old(self)@.has_current() ==> r == Err::<(), StateError>(StateError::NoDocumentOpen)
                && final(self)@ == old(self)@,
            old(self)@.has_current() && !old(self)@.current_doc().sheet.has_anim(name@) ==> r
                == Err::<(), StateError>(StateError::AnimationNotInDocument) && final(self)@ == old(
                self,
            )@,
            old(self)@.has_current() && old(self)@.current_doc().sheet.has_anim(name@) ==> r
                == Ok::<(), StateError>(()) && final(self)@ == old(self)@.update_current(
                doc_begin_rename(old(self)@.current_doc(), name@),
            ),
    {
        let ghost pre = self@;
        let i = match self.find_current() {
            Some(i) => i,
            None => {
                return Err(StateError::NoDocumentOpen);
            },
        };
        if !self.documents[i].sheet.has_animation(name) {
            return Err(StateError::AnimationNotInDocument);
        }
        let mut doc = self.documents.remove(i);
        doc.content_rename_animation_target = Some(name.clone());
        doc.content_rename_animation_buffer = Some(name.clone());
        let ghost d2 = doc@;
        self.documents.insert(i, doc);
        proof {
            assert(self@.documents =~= pre.documents.update(i as int, d2));
            assert(d2 =~~= doc_begin_rename(pre.current_doc(), name@));
            Self::lemma_update_current(pre, self@, d2);
        }
        Ok(())
    }

    /// Overwrites the rename buffer of the current document while a rename is
    /// in progress; outside a rename the command is tolerated and does
    /// nothing.
    fn update_animation_rename(&mut self, text: &String) -> (r: Result<(), StateError>)
        requires
            old(self)@.wf(),
        ensures
            final(self)@.wf(),
            !old(self)@.has_current() ==> r == Err::<(), StateError>(StateError::NoDocumentOpen)
                && final(self)@ == old(self)@,
            old(self)@.has_current() ==> r == Ok::<(), StateError>(()) && final(self)@ == old(
                self,
            )@.update_current(doc_update_rename(old(self)@.current_doc(), text@)),
    {
        let ghost pre = self@;
        let i = match self.find_current() {
            Some(i) => i,
            None => {
                return Err(StateError::NoDocumentOpen);
            },
        };
        if self.documents[i].content_rename_animation_target.is_some() {
            let mut doc = self.documents.remove(i);
            doc.content_rename_animation_buffer = Some(text.clone());
            let ghost d2 = doc@;
            self.documents.insert(i, doc);
            proof {
                assert(self@.documents =~= pre.documents.update(i as int, d2));
                assert(d2 =~~= doc_update_rename(pre.current_doc(), text@));
                Self::lemma_update_current(pre, self@, d2);
            }
        } else {
            proof {
                assert(pre.documents.update(pre.current_index(), pre.current_doc())
                    =~= pre.documents);
                assert(pre.update_current(doc_update_rename(pre.current_doc(), text@)) =~= pre);
            }
        }
        Ok(())
    }

    /// Ends the rename transaction of the current document: a buffer equal to
    /// the target commits nothing, a buffer colliding with a different
    /// existing animation fails and leaves the transaction open for retry,
    /// otherwise the animation is renamed; on success both fields clear.
    fn end_animation_rename(&mut self) -> (r: Result<(), StateError>)
        requires
            old(self)@.wf(),
        ensures
            final(self)@.wf(),
            !old(self)@.has_current() ==> r == Err::<(), StateError>(StateError::NoDocumentOpen)
                && final(self)@ == old(self)@,
            old(self)@.has_current() ==> match doc_end_rename(old(self)@.current_doc()).1 {
                Some(e) => r == Err::<(), StateError>(e) && final(self)@ == old(self)@,
                None => r == Ok::<(), StateError>(()) && final(self)@ == old(self)@.update_current(
                    doc_end_rename(old(self)@.current_doc()).0,
                ),
            },
    {
        let ghost pre = self@;
        let i = match self.find_current() {
            Some(i) => i,
            None => {
                return Err(StateError::NoDocumentOpen);
            },
        };
        let target = match &self.documents[i].content_rename_animation_target {
            Some(t) => t.clone(),
            None => {
                proof {
                    assert(pre.documents.update(pre.current_index(), pre.current_doc())
                        =~= pre.documents);
                    assert(pre.update_current(doc_end_rename(pre.current_doc()).0) =~= pre);
                }
                return Ok(());
            },
        };
        let buffer = match &self.documents[i].content_rename_animation_buffer {
            Some(b) => b.clone(),
            None => {
                proof {
                    assert(false);
                }
                return Ok(());
            },
        };
        if target.eq(&buffer) {
            let mut doc = self.documents.remove(i);
            doc.content_rename_animation_target = None;
            doc.content_rename_animation_buffer = None;
            let ghost d2 = doc@;
            self.documents.insert(i, doc);
            proof {
                assert(self@.documents =~= pre.documents.update(i as int, d2));
                assert(d2 =~~= doc_end_rename(pre.current_doc()).0);
                Self::lemma_update_current(pre, self@, d2);
            }
            return Ok(());
        }
        if self.documents[i].sheet.has_animation(&buffer) {
            return Err(StateError::AnimationAlreadyExists);
        }
        let mut doc = self.documents.remove(i);
        doc.sheet.rename_animation(&target, &buffer);
        doc.content_rename_animation_target = None;
        doc.content_rename_animation_buffer = None;
        let ghost d2 = doc@;
        self.documents.insert(i, doc);
        proof {
            assert(self@.documents =~= pre.documents.update(i as int, d2));
            assert(d2 =~~= doc_end_rename(pre.current_doc()).0);
            Self::lemma_update_current(pre, self@, d2);
        }
        Ok(())
    }

    /// Adds a new empty animation under a generated free name to the current
    /// document and immediately opens a rename transaction on it.
    fn create_animation(&mut self) -> (r: Result<(), StateError>)
        requires
            old(self)@.wf(),
        ensures
            final(self)@.wf(),
            !old(self)@.has_current() ==> r == Err::<(), StateError>(StateError::NoDocumentOpen)
                && final(self)@ == old(self)@,
            old(self)@.has_current() ==> r == Ok::<(), StateError>(()) && final(self)@ == old(
                self,
            )@.update_current(doc_create_animation(old(self)@.current_doc())),
    {
        let ghost pre = self@;
        let i = match self.find_current() {
            Some(i) => i,
            None => {
                return Err(StateError::NoDocumentOpen);
            },
        };
        let mut doc = self.documents.remove(i);
        let name = doc.sheet.add_animation();
        doc.content_rename_animation_target = Some(name.clone());
        doc.content_rename_animation_buffer = Some(name);
        let ghost d2 = doc@;
        self.documents.insert(i, doc);
        proof {
            assert(self@.documents =~= pre.documents.update(i as int, d2));
            assert(d2 =~~= doc_create_animation(pre.current_doc()));
            let n = d2.sheet.animations.len();
            assert(d2.sheet.animations[n - 1].name == d2.content_rename_animation_target->0);
            if pre.current_doc().content_selection is Some {
                let p = pre.current_doc().content_selection->0;
                assert(d2.sheet.has_frame(p));
            }
            Self::lemma_update_current(pre, self@, d2);
        }
        Ok(())
    }

    /// The current document's workbench multiplier as a fraction
    /// (numerator, denominator).
    pub fn get_workbench_zoom_factor(&self) -> (r: Result<(u32, u32), StateError>)
        requires
            self@.wf(),
        ensures
            !self@.has_current() ==> r == Err::<(u32, u32), StateError>(StateError::NoDocumentOpen),
            self@.has_current() ==> (r matches Ok(f) && f.0 as int == zoom_factor_of(
                self@.current_doc().workbench_zoom_level,
            ).0 && f.1 as int == zoom_factor_of(self@.current_doc().workbench_zoom_level).1),
    {
        let i = match self.find_current() {
            Some(i) => i,
            None => {
                return Err(StateError::NoDocumentOpen);
            },
        };
        let z = self.documents[i].workbench_zoom_level;
        if z >= 1 {
            Ok((z as u32, 1))
        } else {
            Ok((1, (-z) as u32))
        }
    }

    /// The current document's workbench pan offset.
    pub fn get_workbench_offset(&self) -> (r: Result<(i64, i64), StateError>)
        requires
            self@.wf(),
        ensures
            !self@.has_current() ==> r == Err::<(i64, i64), StateError>(StateError::NoDocumentOpen),
            self@.has_current() ==> (r matches Ok(o) && o.0 as int
                == self@.current_doc().workbench_offset.0 && o.1 as int
                == self@.current_doc().workbench_offset.1),
    {
        let i = match self.find_current() {
            Some(i) => i,
            None => {
                return Err(StateError::NoDocumentOpen);
            },
        };
        Ok((self.documents[i].workbench_offset.0, self.documents[i].workbench_offset.1))
    }

    /// The write that persists the current document.
    fn save_current_document(&self) -> (r: Result<SaveRequest, StateError>)
        requires
            self@.wf(),
        ensures
            !self@.has_current() ==> r == Err::<SaveRequest, StateError>(
                StateError::NoDocumentOpen,
            ),
            self@.has_current() ==> (r matches Ok(q) && q@ == save_request_of(
                self@.current_doc(),
            )),
    {
        let i = match self.find_current() {
            Some(i) => i,
            None => {
                return Err(StateError::NoDocumentOpen);
            },
        };
        let d = &self.documents[i];
        Ok(SaveRequest { source: d.source.clone(), sheet: d.sheet.duplicate() })
    }

    /// The writes that persist every open document, in registry order.
    fn save_all_documents(&self) -> (r: Result<Vec<SaveRequest>, StateError>)
        requires
            self@.wf(),
        ensures
            self@.documents.len() == 0 ==> r == Err::<Vec<SaveRequest>, StateError>(
                StateError::NoDocumentOpen,
            ),
            self@.documents.len() > 0 ==> (r matches Ok(reqs) && reqs@.map(
                |i: int, q: SaveRequest| q@,
            ) == save_requests_of(self@.documents)),
    {
        if self.documents.len() == 0 {
            return Err(StateError::NoDocumentOpen);
        }
        let mut reqs: Vec<SaveRequest> = Vec::new();
        let mut i: usize = 0;
        while i < self.documents.len()
            invariant
                i <= self.documents.len(),
                reqs@.len() == i,
                forall|j: int|
                    0 <= j < i ==> #[trigger] reqs@[j]@ == save_request_of(self@.documents[j]),
            decreases self.documents.len() - i,
        {
            let d = &self.documents[i];
            reqs.push(SaveRequest { source: d.source.clone(), sheet: d.sheet.duplicate() });
            i += 1;
        }
        proof {
            assert(reqs@.map(|i: int, q: SaveRequest| q@) =~= save_requests_of(self@.documents));
        }
        Ok(reqs)
    }

    /// Re-points the current document to `path`, which becomes its identity
    /// and the current identity, and returns the write that persists it
    /// there. A path under which a different document is open is refused, so
    /// no two documents ever share a source.
    fn save_current_document_as(&mut self, path: &String) -> (r: Result<SaveRequest, StateError>)
        requires
            old(self)@.wf(),
        ensures
            final(self)@.wf(),
            !old(self)@.has_current() ==> r == Err::<SaveRequest, StateError>(
                StateError::NoDocumentOpen,
            ) && final(self)@ == old(self)@,
            old(self)@.has_current() && path@ != old(self)@.current_doc().source && old(
                self,
            )@.is_open(path@) ==> r == Err::<SaveRequest, StateError>(
                StateError::DocumentAlreadyOpen,
            ) && final(self)@ == old(self)@,
            old(self)@.has_current() && (path@ == old(self)@.current_doc().source || !old(
                self,
            )@.is_open(path@)) ==> (r matches Ok(q) && q@ == SaveRequestModel {
                source: path@,
                sheet: old(self)@.current_doc().sheet,
            } && final(self)@ == StateModel {
                documents: old(self)@.documents.update(
                    old(self)@.current_index(),
                    DocumentModel { source: path@, ..old(self)@.current_doc() },
                ),
                current_document: Some(path@),
            }),
    {
        let ghost pre = self@;
        let i = match self.find_current() {
            Some(i) => i,
            None => {
                return Err(StateError::NoDocumentOpen);
            },
        };
        match self.find_document(path) {
            Some(j) => if j != i {
                proof {
                    assert(pre.sources()[j as int] == path@);
                    assert(pre.sources()[i as int] == pre.current_doc().source);
                }
                return Err(StateError::DocumentAlreadyOpen);
            },
            None => {},
        }
        let mut doc = self.documents.remove(i);
        doc.source = path.clone();
        let ghost d2 = doc@;
        let req = SaveRequest { source: path.clone(), sheet: doc.sheet.duplicate() };
        self.documents.insert(i, doc);
        self.current_document = Some(path.clone());
        proof {
            assert(self@.documents =~= pre.documents.update(i as int, d2));
            assert(d2 =~~= DocumentModel { source: path@, ..pre.current_doc() });
            assert(self@.sources() =~= pre.sources().update(i as int, path@));
            pre.lemma_is_open_sources(path@);
            if !pre.is_open(path@) {
                assert forall|x: int, y: int|
                    0 <= x < self@.sources().len() && 0 <= y < self@.sources().len() && x
                        != y implies self@.sources()[x] != self@.sources()[y] by {
                    if x != i && y != i {
                        assert(pre.sources()[x] == self@.sources()[x]);
                        assert(pre.sources()[y] == self@.sources()[y]);
                    } else if x == i {
                        if self@.sources()[y] == path@ {
                            assert(pre.sources().contains(path@));
                        }
                    } else {
                        if self@.sources()[x] == path@ {
                            assert(pre.sources().contains(path@));
                        }
                    }
                }
            } else {
                assert(path@ == pre.current_doc().source);
                assert(self@.sources() =~= pre.sources());
            }
            assert(self@.documents[i as int].source == path@);
            assert(self@.is_open(path@));
            assert(self@ =~~= StateModel {
                documents: pre.documents.update(
                    pre.current_index(),
                    DocumentModel { source: path@, ..pre.current_doc() },
                ),
                current_document: Some(path@),
            });
        }
        Ok(req)
    }

    /// Lifts a command that produces no writes into the result shape of
    /// `process_command`.
    fn empty_saves(r: Result<(), StateError>) -> (out: Result<Vec<SaveRequest>, StateError>)
        ensures
            match r {
                Ok(()) => (out matches Ok(v) && v@ == Seq::<SaveRequest>::empty()),
                Err(e) => out == Err::<Vec<SaveRequest>, StateError>(e),
            },
    {
        match r {
            Ok(()) => Ok(Vec::new()),
            Err(e) => Err(e),
        }
    }

    /// Interprets one command against the current state: the sole mutation
    /// entry point. On success it returns the writes the command asks for (a
    /// save produces one request per document to persist; everything else
    /// produces none); on failure it reports the specific condition and the
    /// state is exactly as it was.
    pub fn process_command(&mut self, command: &Command) -> (r: Result<
        Vec<SaveRequest>,
        StateError,
    >)
        requires
            old(self)@.wf(),
            command@ matches CommandModel::OpenDocument(_, sh) ==> sh.wf(),
        ensures
            final(self)@.wf(),
            match step_error(old(self)@, command@) {
                Some(e) => r == Err::<Vec<SaveRequest>, StateError>(e) && final(self)@ == old(
                    self,
                )@,
                None => (r matches Ok(reqs) && reqs@.map(|i: int, q: SaveRequest| q@)
                    == step_saves(old(self)@, command@) && final(self)@ == step_state(
                    old(self)@,
                    command@,
                )),
            },
    {
        let ghost pre = self@;
        let ghost c = command@;
        match command {
            Command::NewDocument(p) => {
                self.new_document(p.clone());
                proof {
                    assert(self@ =~= step_state(pre, c));
                    assert(Seq::<SaveRequestModel>::empty() =~= step_saves(pre, c));
                }
                Ok(Vec::new())
            },
            Command::OpenDocument(p, sheet) => {
                self.open_document(p.clone(), sheet.duplicate());
                proof {
                    assert(self@ =~= step_state(pre, c));
                    assert(Seq::<SaveRequestModel>::empty() =~= step_saves(pre, c));
                }
                Ok(Vec::new())
            },
            Command::FocusDocument(p) => {
                match self.find_document(p) {
                    Some(i) => {
                        self.current_document = Some(p.clone());
                        proof {
                            assert(self@.documents[i as int].source == p@);
                            assert(self@.is_open(p@));
                            assert(self@ =~= step_state(pre, c));
                        }
                    },
                    None => {
                        proof {
                            assert(self@ =~= step_state(pre, c));
                        }
                    },
                }
                proof {
                    assert(Seq::<SaveRequestModel>::empty() =~= step_saves(pre, c));
                }
                Ok(Vec::new())
            },
            Command::CloseCurrentDocument => {
                let r = self.close_current_document();
                proof {
                    if pre.has_current() {
                        assert(self@ =~= step_state(pre, c));
                    }
                    assert(Seq::<SaveRequestModel>::empty() =~= step_saves(pre, c));
                }
                match r {
                    Ok(()) => Ok(Vec::new()),
                    Err(e) => Err(e),
                }
            },
            Command::CloseAllDocuments => {
                self.close_all_documents();
                proof {
                    assert(self@ =~= step_state(pre, c));
                    assert(Seq::<SaveRequestModel>::empty() =~= step_saves(pre, c));
                }
                Ok(Vec::new())
            },
            Command::SaveCurrentDocument => {
                match self.save_current_document() {
                    Ok(q) => {
                        let mut reqs: Vec<SaveRequest> = Vec::new();
                        reqs.push(q);
                        proof {
                            assert(reqs@.map(|i: int, q: SaveRequest| q@) =~= step_saves(pre, c));
                        }
                        Ok(reqs)
                    },
                    Err(e) => Err(e),
                }
            },
            Command::SaveCurrentDocumentAs(p) => {
                match self.save_current_document_as(p) {
                    Ok(q) => {
                        let mut reqs: Vec<SaveRequest> = Vec::new();
                        reqs.push(q);
                        proof {
                            assert(reqs@.map(|i: int, q: SaveRequest| q@) =~= step_saves(pre, c));
                            assert(self@ =~= step_state(pre, c));
                        }
                        Ok(reqs)
                    },
                    Err(e) => Err(e),
                }
            },
            Command::SaveAllDocuments => {
                match self.save_all_documents() {
                    Ok(reqs) => {
                        proof {
                            assert(reqs@.map(|i: int, q: SaveRequest| q@) == step_saves(pre, c));
                        }
                        Ok(reqs)
                    },
                    Err(e) => Err(e),
                }
            },
            Command::SwitchToContentTab(tab) => {
                let r = self.switch_to_content_tab(*tab);
                proof {
                    assert(Seq::<SaveRequestModel>::empty() =~= step_saves(pre, c));
                }
                Self::empty_saves(r)
            },
            Command::Import(p) => {
                let r = self.import(p);
                proof {
                    assert(Seq::<SaveRequestModel>::empty() =~= step_saves(pre, c));
                }
                Self::empty_saves(r)
            },
            Command::SelectFrame(p) => {
                let r = self.select_frame(p);
                proof {
                    assert(Seq::<SaveRequestModel>::empty() =~= step_saves(pre, c));
                }
                Self::empty_saves(r)
            },
            Command::EditFrame(p) => {
                let r = self.edit_frame(p);
                proof {
                    assert(Seq::<SaveRequestModel>::empty() =~= step_saves(pre, c));
                }
                Self::empty_saves(r)
            },
            Command::CreateAnimation => {
                let r = self.create_animation();
                proof {
                    assert(Seq::<SaveRequestModel>::empty() =~= step_saves(pre, c));
                }
                Self::empty_saves(r)
            },
            Command::BeginAnimationRename(n) => {
                let r = self.begin_animation_rename(n);
                proof {
                    assert(Seq::<SaveRequestModel>::empty() =~= step_saves(pre, c));
                }
                Self::empty_saves(r)
            },
            Command::UpdateAnimationRename(n) => {
                let r = self.update_animation_rename(n);
                proof {
                    assert(Seq::<SaveRequestModel>::empty() =~= step_saves(pre, c));
                }
                Self::empty_saves(r)
            },
            Command::EndAnimationRename => {
                let r = self.end_animation_rename();
                proof {
                    assert(Seq::<SaveRequestModel>::empty() =~= step_saves(pre, c));
                }
                Self::empty_saves(r)
            },
            Command::ZoomIn => {
                let r = self.zoom_in();
                proof {
                    assert(Seq::<SaveRequestModel>::empty() =~= step_saves(pre, c));
                }
                Self::empty_saves(r)
            },
            Command::ZoomOut => {
                let r = self.zoom_out();
                proof {
                    assert(Seq::<SaveRequestModel>::empty() =~= step_saves(pre, c));
                }
                Self::empty_saves(r)
            },
            Command::ResetZoom => {
                let r = self.reset_zoom();
                proof {
                    assert(Seq::<SaveRequestModel>::empty() =~= step_saves(pre, c));
                }
                Self::empty_saves(r)
            },
            Command::Pan(dx, dy) => {
                let r = self.pan(*dx, *dy);
                proof {
                    assert(Seq::<SaveRequestModel>::empty() =~= step_saves(pre, c));
                }
                Self::empty_saves(r)
            },
        }
    }

    /// Closes every document; never fails.
    fn close_all_documents(&mut self)
        ensures
            final(self)@.documents == Seq::<DocumentModel>::empty(),
            final(self)@.current_document is None,
            final(self)@.wf(),
    {
        self.documents.clear();
        self.current_document = None;
        proof {
            assert(self@.documents =~= Seq::<DocumentModel>::empty());
        }
    }
}

/// The zoom lattice is closed under zooming: from any reachable step, one
/// `ZoomIn` or `ZoomOut` lands on the lattice again — within [-8, 16] and
/// never on -1, 0, or any value off the doubling/halving ladder. With
/// `Document::new` starting at step 1, every sequence of zoom commands
/// therefore stays on the lattice.
pub proof fn lemma_zoom_lattice(z: int)
    requires
        zoom_level_valid(z),
    ensures
        zoom_level_valid(zoom_in_step(z)),
        zoom_level_valid(zoom_out_step(z)),
        -8 <= zoom_in_step(z) <= 16,
        -8 <= zoom_out_step(z) <= 16,
{
}

/// Away from the clamp boundaries, `ZoomIn` and `ZoomOut` invert each other.
pub proof fn lemma_zoom_invertible(z: int)
    requires
        zoom_level_valid(z),
    ensures
        z < 16 ==> zoom_out_step(zoom_in_step(z)) == z,
        z > -8 ==> zoom_in_step(zoom_out_step(z)) == z,
{
}

/// `ResetZoom` always lands on step 1 — multiplier one — whatever the prior
/// state of the document.
pub proof fn lemma_reset_zoom_unit(d: DocumentModel)
    ensures
        doc_reset_zoom(d).workbench_zoom_level == 1,
        zoom_factor_of(doc_reset_zoom(d).workbench_zoom_level) == (1int, 1int),
{
}

/// Beginning a rename on `name`, overwriting the buffer with a text equal to
/// the original name, then ending the transaction performs no rename: the
/// sheet is untouched and both rename fields come out clear.
pub proof fn lemma_rename_back_to_original(d: DocumentModel, name: Seq<char>)
    ensures
        ({
            let after = doc_end_rename(doc_update_rename(doc_begin_rename(d, name), name));
            &&& after.1 is None
            &&& after.0.sheet == d.sheet
            &&& after.0.content_rename_animation_target is None
            &&& after.0.content_rename_animation_buffer is None
            &&& after.0 == DocumentModel {
                content_rename_animation_target: None,
                content_rename_animation_buffer: None,
                ..d
            }
        }),
{
}

/// Ending a rename whose buffer collides with a different existing animation
/// reports the collision and leaves the document — target and buffer
/// included — exactly as it was, so the user can retry.
pub proof fn lemma_rename_collision_retryable(d: DocumentModel)
    requires
        d.content_rename_animation_target matches Some(t),
        d.content_rename_animation_buffer matches Some(b),
        d.content_rename_animation_target->0 != d.content_rename_animation_buffer->0,
        d.sheet.has_anim(d.content_rename_animation_buffer->0),
    ensures
        doc_end_rename(d) == (d, Some(StateError::AnimationAlreadyExists)),
{
}

/// Opening a path that is already open creates no second document and leaves
/// every document untouched: it only refocuses.
pub proof fn lemma_reopen_refocuses(pre: StateModel, path: Seq<char>, sheet: SheetModel)
    requires
        pre.is_open(path),
    ensures
        step_state(pre, CommandModel::OpenDocument(path, sheet)).documents == pre.documents,
        step_state(pre, CommandModel::OpenDocument(path, sheet)).current_document == Some(path),
        step_error(pre, CommandModel::OpenDocument(path, sheet)) is None,
{
}

/// Closing the only open document leaves no documents and no current
/// identity.
pub proof fn lemma_close_only_document(pre: StateModel)
    requires
        pre.wf(),
        pre.has_current(),
        pre.documents.len() == 1,
    ensures
        step_state(pre, CommandModel::CloseCurrentDocument).documents.len() == 0,
        step_state(pre, CommandModel::CloseCurrentDocument).current_document is None,
{
}

/// Closing a document that is not last in the registry moves focus to the
/// document now occupying the closed one's index.
pub proof fn lemma_close_non_last_keeps_index(pre: StateModel)
    requires
        pre.wf(),
        pre.has_current(),
        pre.current_index() < pre.documents.len() - 1,
    ensures
        ({
            let post = step_state(pre, CommandModel::CloseCurrentDocument);
            &&& post.documents.len() == pre.documents.len() - 1
            &&& post.current_document == Some(post.documents[pre.current_index()].source)
            &&& post.documents[pre.current_index()] == pre.documents[pre.current_index() + 1]
        }),
{
    let i = pre.current_index();
    let p = pre.current_document->0;
    assert(0 <= i < pre.documents.len() && pre.documents[i].source == p);
    assert(pre.documents.remove(i)[i] == pre.documents[i + 1]);
}

} // verus!
