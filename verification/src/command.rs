//! The command vocabulary and the buffer it travels in. A `Command` is an
//! immutable description of one user intent, carrying exactly the data needed
//! to apply it without consulting global state; a `CommandBuffer` is an
//! append-only, order-preserving queue of commands produced during one
//! interaction pass by possibly many producers, merged, then drained exactly
//! once by the state machine.

use crate::sheet::Frame;
use crate::sheet::Sheet;
use crate::sheet::SheetModel;
use crate::state::ContentTab;
use crate::state::Document;
use vstd::prelude::*;

verus! {

/// One user intent. Producers never validate: every precondition is checked
/// by the state machine when the command is applied.
pub enum Command {
    NewDocument(String),
    OpenDocument(String, Sheet),
    FocusDocument(String),
    CloseCurrentDocument,
    CloseAllDocuments,
    SaveCurrentDocument,
    SaveCurrentDocumentAs(String),
    SaveAllDocuments,
    SwitchToContentTab(ContentTab),
    Import(String),
    SelectFrame(String),
    EditFrame(String),
    CreateAnimation,
    BeginAnimationRename(String),
    UpdateAnimationRename(String),
    EndAnimationRename,
    ZoomIn,
    ZoomOut,
    ResetZoom,
    Pan(i64, i64),
}

/// Mathematical value of a `Command`.
#[verifier::ext_equal]
pub ghost enum CommandModel {
    NewDocument(Seq<char>),
    OpenDocument(Seq<char>, SheetModel),
    FocusDocument(Seq<char>),
    CloseCurrentDocument,
    CloseAllDocuments,
    SaveCurrentDocument,
    SaveCurrentDocumentAs(Seq<char>),
    SaveAllDocuments,
    SwitchToContentTab(ContentTab),
    Import(Seq<char>),
    SelectFrame(Seq<char>),
    EditFrame(Seq<char>),
    CreateAnimation,
    BeginAnimationRename(Seq<char>),
    UpdateAnimationRename(Seq<char>),
    EndAnimationRename,
    ZoomIn,
    ZoomOut,
    ResetZoom,
    Pan(int, int),
}

impl View for Command {
    type V = CommandModel;

    open spec fn view(&self) -> CommandModel {
        match self {
            Command::NewDocument(p) => CommandModel::NewDocument(p@),
            Command::OpenDocument(p, s) => CommandModel::OpenDocument(p@, s@),
            Command::FocusDocument(p) => CommandModel::FocusDocument(p@),
            Command::CloseCurrentDocument => CommandModel::CloseCurrentDocument,
            Command::CloseAllDocuments => CommandModel::CloseAllDocuments,
            Command::SaveCurrentDocument => CommandModel::SaveCurrentDocument,
            Command::SaveCurrentDocumentAs(p) => CommandModel::SaveCurrentDocumentAs(p@),
            Command::SaveAllDocuments => CommandModel::SaveAllDocuments,
            Command::SwitchToContentTab(t) => CommandModel::SwitchToContentTab(*t),
            Command::Import(p) => CommandModel::Import(p@),
            Command::SelectFrame(p) => CommandModel::SelectFrame(p@),
            Command::EditFrame(p) => CommandModel::EditFrame(p@),
            Command::CreateAnimation => CommandModel::CreateAnimation,
            Command::BeginAnimationRename(n) => CommandModel::BeginAnimationRename(n@),
            Command::UpdateAnimationRename(n) => CommandModel::UpdateAnimationRename(n@),
            Command::EndAnimationRename => CommandModel::EndAnimationRename,
            Command::ZoomIn => CommandModel::ZoomIn,
            Command::ZoomOut => CommandModel::ZoomOut,
            Command::ResetZoom => CommandModel::ResetZoom,
            Command::Pan(dx, dy) => CommandModel::Pan(*dx as int, *dy as int),
        }
    }
}

/// An order-preserving queue of commands: appended to by producers during one
/// interaction pass, merged, and flushed exactly once by the consumer.
pub struct CommandBuffer {
    queue: Vec<Command>,
}

impl View for CommandBuffer {
    type V = Seq<CommandModel>;

    closed spec fn view(&self) -> Seq<CommandModel> {
        self.queue@.map(|i: int, c: Command| c@)
    }
}

impl CommandBuffer {
    pub fn new() -> (b: CommandBuffer)
        ensures
            b@ == Seq::<CommandModel>::empty(),
    {
        let b = CommandBuffer { queue: Vec::new() };
        proof {
            assert(b@ =~= Seq::<CommandModel>::empty());
        }
        b
    }

    /// Concatenates another buffer's queue onto this one, preserving the
    /// relative order of both; used to merge buffers from independent
    /// interface regions drawn in the same pass.
    pub fn append(&mut self, other: CommandBuffer)
        ensures
            final(self)@ == old(self)@ + other@,
    {
        let mut o = other;
        self.queue.append(&mut o.queue);
        proof {
            assert(self@ =~= old(self)@ + other@);
        }
    }

    /// Removes and returns all queued commands, leaving the buffer empty, so
    /// that each command is consumed exactly once.
    pub fn flush(&mut self) -> (r: Vec<Command>)
        ensures
            r@.map(|i: int, c: Command| c@) == old(self)@,
            final(self)@ == Seq::<CommandModel>::empty(),
    {
        let mut out: Vec<Command> = Vec::new();
        core::mem::swap(&mut self.queue, &mut out);
        proof {
            assert(self@ =~= Seq::<CommandModel>::empty());
        }
        out
    }

    pub fn new_document(&mut self, path: String)
        ensures
            final(self)@ == old(self)@.push(CommandModel::NewDocument(path@)),
    {
        self.push_cmd(Command::NewDocument(path));
    }

    pub fn open_document(&mut self, path: String, sheet: Sheet)
        ensures
            final(self)@ == old(self)@.push(CommandModel::OpenDocument(path@, sheet@)),
    {
        self.push_cmd(Command::OpenDocument(path, sheet));
    }

    pub fn focus_document(&mut self, document: &Document)
        ensures
            final(self)@ == old(self)@.push(CommandModel::FocusDocument(document@.source)),
    {
        self.push_cmd(Command::FocusDocument(document.get_source().clone()));
    }

    pub fn close_current_document(&mut self)
        ensures
            final(self)@ == old(self)@.push(CommandModel::CloseCurrentDocument),
    {
        self.push_cmd(Command::CloseCurrentDocument);
    }

    pub fn close_all_documents(&mut self)
        ensures
            final(self)@ == old(self)@.push(CommandModel::CloseAllDocuments),
    {
        self.push_cmd(Command::CloseAllDocuments);
    }

    pub fn save(&mut self)
        ensures
            final(self)@ == old(self)@.push(CommandModel::SaveCurrentDocument),
    {
        self.push_cmd(Command::SaveCurrentDocument);
    }

    pub fn save_as(&mut self, path: String)
        ensures
            final(self)@ == old(self)@.push(CommandModel::SaveCurrentDocumentAs(path@)),
    {
        self.push_cmd(Command::SaveCurrentDocumentAs(path));
    }

    pub fn save_all(&mut self)
        ensures
            final(self)@ == old(self)@.push(CommandModel::SaveAllDocuments),
    {
        self.push_cmd(Command::SaveAllDocuments);
    }

    pub fn switch_to_content_tab(&mut self, tab: ContentTab)
        ensures
            final(self)@ == old(self)@.push(CommandModel::SwitchToContentTab(tab)),
    {
        self.push_cmd(Command::SwitchToContentTab(tab));
    }

    pub fn import(&mut self, path: String)
        ensures
            final(self)@ == old(self)@.push(CommandModel::Import(path@)),
    {
        self.push_cmd(Command::Import(path));
    }

    pub fn select_frame(&mut self, frame: &Frame)
        ensures
            final(self)@ == old(self)@.push(CommandModel::SelectFrame(frame@)),
    {
        self.push_cmd(Command::SelectFrame(frame.get_source().clone()));
    }

    pub fn edit_frame(&mut self, frame: &Frame)
        ensures
            final(self)@ == old(self)@.push(CommandModel::EditFrame(frame@)),
    {
        self.push_cmd(Command::EditFrame(frame.get_source().clone()));
    }

    pub fn create_animation(&mut self)
        ensures
            final(self)@ == old(self)@.push(CommandModel::CreateAnimation),
    {
        self.push_cmd(Command::CreateAnimation);
    }

    pub fn begin_animation_rename(&mut self, name: String)
        ensures
            final(self)@ == old(self)@.push(CommandModel::BeginAnimationRename(name@)),
    {
        self.push_cmd(Command::BeginAnimationRename(name));
    }

    pub fn update_animation_rename(&mut self, name: String)
        ensures
            final(self)@ == old(self)@.push(CommandModel::UpdateAnimationRename(name@)),
    {
        self.push_cmd(Command::UpdateAnimationRename(name));
    }

    pub fn end_animation_rename(&mut self)
        ensures
            final(self)@ == old(self)@.push(CommandModel::EndAnimationRename),
    {
        self.push_cmd(Command::EndAnimationRename);
    }

    pub fn zoom_in(&mut self)
        ensures
            final(self)@ == old(self)@.push(CommandModel::ZoomIn),
    {
        self.push_cmd(Command::ZoomIn);
    }

    pub fn zoom_out(&mut self)
        ensures
            final(self)@ == old(self)@.push(CommandModel::ZoomOut),
    {
        self.push_cmd(Command::ZoomOut);
    }

    pub fn reset_zoom(&mut self)
        ensures
            final(self)@ == old(self)@.push(CommandModel::ResetZoom),
    {
        self.push_cmd(Command::ResetZoom);
    }

    pub fn pan(&mut self, dx: i64, dy: i64)
        ensures
            final(self)@ == old(self)@.push(CommandModel::Pan(dx as int, dy as int)),
    {
        self.push_cmd(Command::Pan(dx, dy));
    }

    fn push_cmd(&mut self, command: Command)
        ensures
            final(self)@ == old(self)@.push(command@),
    {
        self.queue.push(command);
        proof {
            assert(self@ =~= old(self)@.push(command@));
        }
    }
}

} // verus!
