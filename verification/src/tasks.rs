//! The command vocabulary: the closed set of editor commands ("tasks"),
//! some parameterized, shared by the lexer (bare-word recognition) and the
//! parser (reserved-word checks).

use vstd::prelude::*;

verus! {

use crate::text::str_eq;

/// One recognized editor action, optionally parameterized.
#[derive(Debug, PartialEq)]
pub enum CmdTask {
    Multi(Vec<CmdTask>),
    SaveMode,
    ReturnSavedMode,
    SavePos,
    MoveSaved,
    CreateWindow,
    DeleteWindow,
    SetWindowUp,
    SetWindowDown,
    CopyToSys,
    CopyToEditor,
    PasteSys,
    PasteEditor,
    CreateFile(String),
    ModifyFile(String),
    RenameFile(String, String),
    DeleteFile(String),
    SaveFileAs(String),
    SaveFile,
    WriteOnFile,
    CopyFile,
    Write(String),
    ReqSearchFile,
    ReqCreateFile,
    ReqRenameFile,
    ReqDeleteFile,
    ReqModifyFile,
    ReqSaveFile,
    EnterNormal,
    EnterModify,
    EnterSelection,
    ExecCmd(String),
    ExecutePrompt(String),
    SelectLine,
    DeleteLine,
    CopySelection,
    DeleteSelection,
    MoveToLine(u32),
    MoveToRow(u32),
    MoveIOW,
    MoveEOW,
    MoveEOL,
    MoveIOL,
    MoveEOB,
    MoveIOB,
    Swap,
    StopSearch,
    Null,
    Continue,
    SetPriority(u8),
    Exit,
    Reset,
    Log(String),
    Warn(String),
}

/// The mathematical model of a task: the same tagged union with string
/// payloads seen as character sequences.
pub enum TaskModel {
    Multi(Seq<TaskModel>),
    SaveMode,
    ReturnSavedMode,
    SavePos,
    MoveSaved,
    CreateWindow,
    DeleteWindow,
    SetWindowUp,
    SetWindowDown,
    CopyToSys,
    CopyToEditor,
    PasteSys,
    PasteEditor,
    CreateFile(Seq<char>),
    ModifyFile(Seq<char>),
    RenameFile(Seq<char>, Seq<char>),
    DeleteFile(Seq<char>),
    SaveFileAs(Seq<char>),
    SaveFile,
    WriteOnFile,
    CopyFile,
    Write(Seq<char>),
    ReqSearchFile,
    ReqCreateFile,
    ReqRenameFile,
    ReqDeleteFile,
    ReqModifyFile,
    ReqSaveFile,
    EnterNormal,
    EnterModify,
    EnterSelection,
    ExecCmd(Seq<char>),
    ExecutePrompt(Seq<char>),
    SelectLine,
    DeleteLine,
    CopySelection,
    DeleteSelection,
    MoveToLine(u32),
    MoveToRow(u32),
    MoveIOW,
    MoveEOW,
    MoveEOL,
    MoveIOL,
    MoveEOB,
    MoveIOB,
    Swap,
    StopSearch,
    Null,
    Continue,
    SetPriority(u8),
    Exit,
    Reset,
    Log(Seq<char>),
    Warn(Seq<char>),
}

/// The models of a sequence of tasks, elementwise.
pub open spec fn tasks_view(ts: Seq<CmdTask>) -> Seq<TaskModel>
    decreases ts,
{
    if ts.len() == 0 {
        Seq::empty()
    } else {
        seq![ts[0]@] + tasks_view(ts.drop_first())
    }
}

/// `tasks_view` maps the view over the sequence, index by index.
pub proof fn lemma_tasks_view(ts: Seq<CmdTask>)
    ensures
        tasks_view(ts).len() == ts.len(),
        forall|i: int| 0 <= i < ts.len() ==> tasks_view(ts)[i] == #[trigger] ts[i]@,
    decreases ts.len(),
{
    if ts.len() > 0 {
        lemma_tasks_view(ts.drop_first());
        assert(tasks_view(ts) == seq![ts[0]@] + tasks_view(ts.drop_first()));
        assert forall|i: int| 0 <= i < ts.len() implies tasks_view(ts)[i] == ts[i]@ by {
            if i > 0 {
                assert(tasks_view(ts.drop_first())[i - 1] == ts.drop_first()[i - 1]@);
                assert(ts.drop_first()[i - 1] == ts[i]);
            } else {
                assert(tasks_view(ts)[0] == seq![ts[0]@][0]);
            }
        }
    }
}

impl View for CmdTask {
    type V = TaskModel;

    open spec fn view(&self) -> TaskModel
        decreases self,
    {
        match self {
            CmdTask::Multi(ts) => TaskModel::Multi(tasks_view(ts@)),
            CmdTask::SaveMode => TaskModel::SaveMode,
            CmdTask::ReturnSavedMode => TaskModel::ReturnSavedMode,
            CmdTask::SavePos => TaskModel::SavePos,
            CmdTask::MoveSaved => TaskModel::MoveSaved,
            CmdTask::CreateWindow => TaskModel::CreateWindow,
            CmdTask::DeleteWindow => TaskModel::DeleteWindow,
            CmdTask::SetWindowUp => TaskModel::SetWindowUp,
            CmdTask::SetWindowDown => TaskModel::SetWindowDown,
            CmdTask::CopyToSys => TaskModel::CopyToSys,
            CmdTask::CopyToEditor => TaskModel::CopyToEditor,
            CmdTask::PasteSys => TaskModel::PasteSys,
            CmdTask::PasteEditor => TaskModel::PasteEditor,
            CmdTask::CreateFile(s) => TaskModel::CreateFile(s@),
            CmdTask::ModifyFile(s) => TaskModel::ModifyFile(s@),
            CmdTask::RenameFile(a, b) => TaskModel::RenameFile(a@, b@),
            CmdTask::DeleteFile(s) => TaskModel::DeleteFile(s@),
            CmdTask::SaveFileAs(s) => TaskModel::SaveFileAs(s@),
            CmdTask::SaveFile => TaskModel::SaveFile,
            CmdTask::WriteOnFile => TaskModel::WriteOnFile,
            CmdTask::CopyFile => TaskModel::CopyFile,
            CmdTask::Write(s) => TaskModel::Write(s@),
            CmdTask::ReqSearchFile => TaskModel::ReqSearchFile,
            CmdTask::ReqCreateFile => TaskModel::ReqCreateFile,
            CmdTask::ReqRenameFile => TaskModel::ReqRenameFile,
            CmdTask::ReqDeleteFile => TaskModel::ReqDeleteFile,
            CmdTask::ReqModifyFile => TaskModel::ReqModifyFile,
            CmdTask::ReqSaveFile => TaskModel::ReqSaveFile,
            CmdTask::EnterNormal => TaskModel::EnterNormal,
            CmdTask::EnterModify => TaskModel::EnterModify,
            CmdTask::EnterSelection => TaskModel::EnterSelection,
            CmdTask::ExecCmd(s) => TaskModel::ExecCmd(s@),
            CmdTask::ExecutePrompt(s) => TaskModel::ExecutePrompt(s@),
            CmdTask::SelectLine => TaskModel::SelectLine,
            CmdTask::DeleteLine => TaskModel::DeleteLine,
            CmdTask::CopySelection => TaskModel::CopySelection,
            CmdTask::DeleteSelection => TaskModel::DeleteSelection,
            CmdTask::MoveToLine(n) => TaskModel::MoveToLine(*n),
            CmdTask::MoveToRow(n) => TaskModel::MoveToRow(*n),
            CmdTask::MoveIOW => TaskModel::MoveIOW,
            CmdTask::MoveEOW => TaskModel::MoveEOW,
            CmdTask::MoveEOL => TaskModel::MoveEOL,
            CmdTask::MoveIOL => TaskModel::MoveIOL,
            CmdTask::MoveEOB => TaskModel::MoveEOB,
            CmdTask::MoveIOB => TaskModel::MoveIOB,
            CmdTask::Swap => TaskModel::Swap,
            CmdTask::StopSearch => TaskModel::StopSearch,
            CmdTask::Null => TaskModel::Null,
            CmdTask::Continue => TaskModel::Continue,
            CmdTask::SetPriority(n) => TaskModel::SetPriority(*n),
            CmdTask::Exit => TaskModel::Exit,
            CmdTask::Reset => TaskModel::Reset,
            CmdTask::Log(s) => TaskModel::Log(s@),
            CmdTask::Warn(s) => TaskModel::Warn(s@),
        }
    }
}

/// The command, if any, that the vocabulary recognizes under a bare name.
/// Only parameterless tasks are reachable by name; parameterized ones are
/// built by the parser from reserved calls.
pub open spec fn task_for_name(s: Seq<char>) -> Option<CmdTask> {
    if s == "SaveMode"@ {
        Some(CmdTask::SaveMode)
    } else if s == "ReturnSavedMode"@ {
        Some(CmdTask::ReturnSavedMode)
    } else if s == "SavePos"@ {
        Some(CmdTask::SavePos)
    } else if s == "MoveSaved"@ {
        Some(CmdTask::MoveSaved)
    } else if s == "CreateWindow"@ {
        Some(CmdTask::CreateWindow)
    } else if s == "DeleteWindow"@ {
        Some(CmdTask::DeleteWindow)
    } else if s == "SetWindowUp"@ {
        Some(CmdTask::SetWindowUp)
    } else if s == "SetWindowDown"@ {
        Some(CmdTask::SetWindowDown)
    } else if s == "CopyToSys"@ {
        Some(CmdTask::CopyToSys)
    } else if s == "CopyToEditor"@ {
        Some(CmdTask::CopyToEditor)
    } else if s == "PasteSys"@ {
        Some(CmdTask::PasteSys)
    } else if s == "PasteEditor"@ {
        Some(CmdTask::PasteEditor)
    } else if s == "SaveFile"@ {
        Some(CmdTask::SaveFile)
    } else if s == "WriteOnFile"@ {
        Some(CmdTask::WriteOnFile)
    } else if s == "CopyFile"@ {
        Some(CmdTask::CopyFile)
    } else if s == "EnterCmd"@ || s == "EnterNormal"@ {
        Some(CmdTask::EnterNormal)
    } else if s == "EnterModify"@ {
        Some(CmdTask::EnterModify)
    } else if s == "EnterSelection"@ {
        Some(CmdTask::EnterSelection)
    } else if s == "SelectLine"@ {
        Some(CmdTask::SelectLine)
    } else if s == "DeleteLine"@ {
        Some(CmdTask::DeleteLine)
    } else if s == "CopySelection"@ {
        Some(CmdTask::CopySelection)
    } else if s == "DeleteSelection"@ {
        Some(CmdTask::DeleteSelection)
    } else if s == "RequestSearchFile"@ {
        Some(CmdTask::ReqSearchFile)
    } else if s == "RequestCreateFile"@ {
        Some(CmdTask::ReqCreateFile)
    } else if s == "RequestRenameFile"@ {
        Some(CmdTask::ReqRenameFile)
    } else if s == "RequestDeleteFile"@ {
        Some(CmdTask::ReqDeleteFile)
    } else if s == "MoveIOW"@ {
        Some(CmdTask::MoveIOW)
    } else if s == "MoveEOW"@ {
        Some(CmdTask::MoveEOW)
    } else if s == "MoveEOL"@ {
        Some(CmdTask::MoveEOL)
    } else if s == "MoveIOL"@ {
        Some(CmdTask::MoveIOL)
    } else if s == "MoveEOB"@ {
        Some(CmdTask::MoveEOB)
    } else if s == "MoveIOB"@ {
        Some(CmdTask::MoveIOB)
    } else if s == "Swap"@ {
        Some(CmdTask::Swap)
    } else if s == "Null"@ {
        Some(CmdTask::Null)
    } else {
        None
    }
}

impl CmdTask {
    /// A copy of the command, with the same model.
    #[verifier::loop_isolation(false)]
    pub fn duplicate(&self) -> (r: CmdTask)
        ensures
            r@ == self@,
        decreases self@,
    {
        match self {
            CmdTask::Multi(ts) => {
                let mut copy: Vec<CmdTask> = Vec::new();
                let mut i: usize = 0;
                while i < ts.len()
                    invariant
                        0 <= i <= ts@.len(),
                        copy@.len() == i,
                        forall|j: int| 0 <= j < i ==> copy@[j]@ == #[trigger] ts@[j]@,
                    decreases ts@.len() - i,
                {
                    proof {
                        lemma_tasks_view(ts@);
                        assert(decreases_to!(self@ => self@->Multi_0));
                        assert(decreases_to!(self@->Multi_0 => self@->Multi_0[i as int]));
                        assert(self@->Multi_0[i as int] == ts@[i as int]@);
                    }
                    copy.push(ts[i].duplicate());
                    i += 1;
                }
                proof {
                    lemma_tasks_view(copy@);
                    lemma_tasks_view(ts@);
                    assert forall|j: int| 0 <= j < copy@.len() implies tasks_view(copy@)[j]
                        == tasks_view(ts@)[j] by {
                        assert(copy@[j]@ == ts@[j]@);
                    }
                    assert(tasks_view(copy@) =~= tasks_view(ts@));
                }
                CmdTask::Multi(copy)
            },
            CmdTask::SaveMode => CmdTask::SaveMode,
            CmdTask::ReturnSavedMode => CmdTask::ReturnSavedMode,
            CmdTask::SavePos => CmdTask::SavePos,
            CmdTask::MoveSaved => CmdTask::MoveSaved,
            CmdTask::CreateWindow => CmdTask::CreateWindow,
            CmdTask::DeleteWindow => CmdTask::DeleteWindow,
            CmdTask::SetWindowUp => CmdTask::SetWindowUp,
            CmdTask::SetWindowDown => CmdTask::SetWindowDown,
            CmdTask::CopyToSys => CmdTask::CopyToSys,
            CmdTask::CopyToEditor => CmdTask::CopyToEditor,
            CmdTask::PasteSys => CmdTask::PasteSys,
            CmdTask::PasteEditor => CmdTask::PasteEditor,
            CmdTask::CreateFile(s) => CmdTask::CreateFile(s.clone()),
            CmdTask::ModifyFile(s) => CmdTask::ModifyFile(s.clone()),
            CmdTask::RenameFile(a, b) => CmdTask::RenameFile(a.clone(), b.clone()),
            CmdTask::DeleteFile(s) => CmdTask::DeleteFile(s.clone()),
            CmdTask::SaveFileAs(s) => CmdTask::SaveFileAs(s.clone()),
            CmdTask::SaveFile => CmdTask::SaveFile,
            CmdTask::WriteOnFile => CmdTask::WriteOnFile,
            CmdTask::CopyFile => CmdTask::CopyFile,
            CmdTask::Write(s) => CmdTask::Write(s.clone()),
            CmdTask::ReqSearchFile => CmdTask::ReqSearchFile,
            CmdTask::ReqCreateFile => CmdTask::ReqCreateFile,
            CmdTask::ReqRenameFile => CmdTask::ReqRenameFile,
            CmdTask::ReqDeleteFile => CmdTask::ReqDeleteFile,
            CmdTask::ReqModifyFile => CmdTask::ReqModifyFile,
            CmdTask::ReqSaveFile => CmdTask::ReqSaveFile,
            CmdTask::EnterNormal => CmdTask::EnterNormal,
            CmdTask::EnterModify => CmdTask::EnterModify,
            CmdTask::EnterSelection => CmdTask::EnterSelection,
            CmdTask::ExecCmd(s) => CmdTask::ExecCmd(s.clone()),
            CmdTask::ExecutePrompt(s) => CmdTask::ExecutePrompt(s.clone()),
            CmdTask::SelectLine => CmdTask::SelectLine,
            CmdTask::DeleteLine => CmdTask::DeleteLine,
            CmdTask::CopySelection => CmdTask::CopySelection,
            CmdTask::DeleteSelection => CmdTask::DeleteSelection,
            CmdTask::MoveToLine(n) => CmdTask::MoveToLine(*n),
            CmdTask::MoveToRow(n) => CmdTask::MoveToRow(*n),
            CmdTask::MoveIOW => CmdTask::MoveIOW,
            CmdTask::MoveEOW => CmdTask::MoveEOW,
            CmdTask::MoveEOL => CmdTask::MoveEOL,
            CmdTask::MoveIOL => CmdTask::MoveIOL,
            CmdTask::MoveEOB => CmdTask::MoveEOB,
            CmdTask::MoveIOB => CmdTask::MoveIOB,
            CmdTask::Swap => CmdTask::Swap,
            CmdTask::StopSearch => CmdTask::StopSearch,
            CmdTask::Null => CmdTask::Null,
            CmdTask::Continue => CmdTask::Continue,
            CmdTask::SetPriority(n) => CmdTask::SetPriority(*n),
            CmdTask::Exit => CmdTask::Exit,
            CmdTask::Reset => CmdTask::Reset,
            CmdTask::Log(s) => CmdTask::Log(s.clone()),
            CmdTask::Warn(s) => CmdTask::Warn(s.clone()),
        }
    }

    /// Looks a bare word up in the command vocabulary.
    pub fn new(value: &str) -> (r: Result<CmdTask, String>)
        ensures
            match task_for_name(value@) {
                Some(t) => r == Ok::<CmdTask, String>(t),
                None => r is Err,
            },
    {
        if str_eq(value, "SaveMode") {
            Ok(CmdTask::SaveMode)
        } else if str_eq(value, "ReturnSavedMode") {
            Ok(CmdTask::ReturnSavedMode)
        } else if str_eq(value, "SavePos") {
            Ok(CmdTask::SavePos)
        } else if str_eq(value, "MoveSaved") {
            Ok(CmdTask::MoveSaved)
        } else if str_eq(value, "CreateWindow") {
            Ok(CmdTask::CreateWindow)
        } else if str_eq(value, "DeleteWindow") {
            Ok(CmdTask::DeleteWindow)
        } else if str_eq(value, "SetWindowUp") {
            Ok(CmdTask::SetWindowUp)
        } else if str_eq(value, "SetWindowDown") {
            Ok(CmdTask::SetWindowDown)
        } else if str_eq(value, "CopyToSys") {
            Ok(CmdTask::CopyToSys)
        } else if str_eq(value, "CopyToEditor") {
            Ok(CmdTask::CopyToEditor)
        } else if str_eq(value, "PasteSys") {
            Ok(CmdTask::PasteSys)
        } else if str_eq(value, "PasteEditor") {
            Ok(CmdTask::PasteEditor)
        } else if str_eq(value, "SaveFile") {
            Ok(CmdTask::SaveFile)
        } else if str_eq(value, "WriteOnFile") {
            Ok(CmdTask::WriteOnFile)
        } else if str_eq(value, "CopyFile") {
            Ok(CmdTask::CopyFile)
        } else if str_eq(value, "EnterCmd") || str_eq(value, "EnterNormal") {
            Ok(CmdTask::EnterNormal)
        } else if str_eq(value, "EnterModify") {
            Ok(CmdTask::EnterModify)
        } else if str_eq(value, "EnterSelection") {
            Ok(CmdTask::EnterSelection)
        } else if str_eq(value, "SelectLine") {
            Ok(CmdTask::SelectLine)
        } else if str_eq(value, "DeleteLine") {
            Ok(CmdTask::DeleteLine)
        } else if str_eq(value, "CopySelection") {
            Ok(CmdTask::CopySelection)
        } else if str_eq(value, "DeleteSelection") {
            Ok(CmdTask::DeleteSelection)
        } else if str_eq(value, "RequestSearchFile") {
            Ok(CmdTask::ReqSearchFile)
        } else if str_eq(value, "RequestCreateFile") {
            Ok(CmdTask::ReqCreateFile)
        } else if str_eq(value, "RequestRenameFile") {
            Ok(CmdTask::ReqRenameFile)
        } else if str_eq(value, "RequestDeleteFile") {
            Ok(CmdTask::ReqDeleteFile)
        } else if str_eq(value, "MoveIOW") {
            Ok(CmdTask::MoveIOW)
        } else if str_eq(value, "MoveEOW") {
            Ok(CmdTask::MoveEOW)
        } else if str_eq(value, "MoveEOL") {
            Ok(CmdTask::MoveEOL)
        } else if str_eq(value, "MoveIOL") {
            Ok(CmdTask::MoveIOL)
        } else if str_eq(value, "MoveEOB") {
            Ok(CmdTask::MoveEOB)
        } else if str_eq(value, "MoveIOB") {
            Ok(CmdTask::MoveIOB)
        } else if str_eq(value, "Swap") {
            Ok(CmdTask::Swap)
        } else if str_eq(value, "Null") {
            Ok(CmdTask::Null)
        } else {
            Err(String::from_str("not a known task name"))
        }
    }
}

} // verus!
