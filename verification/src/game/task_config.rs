//! How a task is tested, where it stands, what help costs and whether it is
//! edited locally.

use crate::game::task_info::TaskSelfInfo;
use vstd::prelude::*;

verus! {

/// How a task is checked.
#[derive(Debug, Clone, Copy, PartialEq, Eq, Structural)]
pub enum TaskTest {
    NULL,
    TEST,
    SELF,
}

/// Where a task stands in its quest.
#[derive(Debug, Clone, Copy, PartialEq, Eq, Structural)]
pub enum TaskMain {
    MAIN,
    PERK,
    SIDE,
}

/// How much getting help costs.
#[derive(Debug, Clone, Copy, PartialEq, Eq, Structural, Hash)]
pub enum TaskLoss {
    NULL,
    FREE,
    PART,
    ZERO,
}

/// Whether a task is only viewed or edited.
#[derive(Debug, Clone, Copy, PartialEq, Eq, Structural)]
pub enum TaskEdit {
    VIEW,
    EDIT,
}

impl TaskTest {
    /// The name of the value.
    pub fn value(&self) -> (r: &'static str)
        ensures
            r@ == match *self {
                TaskTest::NULL => "null"@,
                TaskTest::TEST => "test"@,
                TaskTest::SELF => "self"@,
            },
    {
        match self {
            TaskTest::NULL => "null",
            TaskTest::TEST => "test",
            TaskTest::SELF => "self",
        }
    }
}

impl TaskMain {
    /// The name of the value.
    pub fn value(&self) -> (r: &'static str)
        ensures
            r@ == match *self {
                TaskMain::MAIN => "main"@,
                TaskMain::PERK => "perk"@,
                TaskMain::SIDE => "side"@,
            },
    {
        match self {
            TaskMain::MAIN => "main",
            TaskMain::PERK => "perk",
            TaskMain::SIDE => "side",
        }
    }
}

impl TaskLoss {
    /// The name of the value.
    pub fn value(&self) -> (r: &'static str)
        ensures
            r@ == match *self {
                TaskLoss::NULL => "null"@,
                TaskLoss::FREE => "free"@,
                TaskLoss::PART => "part"@,
                TaskLoss::ZERO => "zero"@,
            },
    {
        match self {
            TaskLoss::NULL => "null",
            TaskLoss::FREE => "free",
            TaskLoss::PART => "part",
            TaskLoss::ZERO => "zero",
        }
    }
}

impl TaskEdit {
    /// The name of the value.
    pub fn value(&self) -> (r: &'static str)
        ensures
            r@ == match *self {
                TaskEdit::EDIT => "edit"@,
                TaskEdit::VIEW => "view"@,
            },
    {
        match self {
            TaskEdit::EDIT => "edit",
            TaskEdit::VIEW => "view",
        }
    }
}

/// The kinds of help whose use lowers the quality of a task.
#[derive(Debug, Clone, Copy, PartialEq, Eq, Structural)]
pub enum HelpKind {
    Guided,
    Code,
    Debug,
    Problem,
}

/// The percentage of quality kept after one kind of help under a loss
/// policy; no policy holds for `NULL`.
pub open spec fn grade_spec(loss: TaskLoss, kind: HelpKind) -> Option<i32> {
    match loss {
        TaskLoss::NULL => None,
        TaskLoss::FREE => Some(100i32),
        TaskLoss::PART => Some(
            match kind {
                HelpKind::Guided => 80i32,
                HelpKind::Code => 40i32,
                HelpKind::Debug => 80i32,
                HelpKind::Problem => 90i32,
            },
        ),
        TaskLoss::ZERO => Some(0i32),
    }
}

/// The percentages applied to the quality of a task, one per kind of help it
/// used, in the order guided, code, debug, problem; `None` when feedback was
/// given and help was used under the `NULL` policy, which has no table.
pub open spec fn quality_factors_spec(loss: TaskLoss, info_guided: bool, code: bool, debug: bool, problem: bool) -> Option<Seq<i32>> {
    if (info_guided || code || debug || problem) && loss == TaskLoss::NULL {
        None
    } else {
        let f = |k: HelpKind| grade_spec(loss, k).unwrap();
        Some(
            (if info_guided { seq![f(HelpKind::Guided)] } else { Seq::empty() })
            + (if code { seq![f(HelpKind::Code)] } else { Seq::empty() })
            + (if debug { seq![f(HelpKind::Debug)] } else { Seq::empty() })
            + (if problem { seq![f(HelpKind::Problem)] } else { Seq::empty() }),
        )
    }
}

/// The quality kept after help, by policy: all of it under `FREE` (100%),
/// none under `ZERO` (0%), no table under `NULL`; under `PART` guided help
/// keeps 80%, code help 40%, debugging help 80% and problem help 90%. The
/// percentages applied under `PART` to an assessment that used some of the
/// kinds of help are those, in the order guided, code, debug, problem.
pub proof fn lemma_grade_table(kind: HelpKind, guided: bool, code: bool, debug: bool, problem: bool)
    ensures
        grade_spec(TaskLoss::FREE, kind) == Some(100i32),
        grade_spec(TaskLoss::ZERO, kind) == Some(0i32),
        grade_spec(TaskLoss::NULL, kind) is None,
        kind == HelpKind::Guided ==> grade_spec(TaskLoss::PART, kind) == Some(80i32),
        kind == HelpKind::Code ==> grade_spec(TaskLoss::PART, kind) == Some(40i32),
        kind == HelpKind::Debug ==> grade_spec(TaskLoss::PART, kind) == Some(80i32),
        kind == HelpKind::Problem ==> grade_spec(TaskLoss::PART, kind) == Some(90i32),
        quality_factors_spec(TaskLoss::PART, guided, code, debug, problem) == Some(
            (if guided { seq![80i32] } else { Seq::empty() }) + (if code { seq![40i32] } else { Seq::empty() })
                + (if debug { seq![80i32] } else { Seq::empty() }) + (if problem { seq![90i32] } else { Seq::empty() }),
        ),
{
    let f = |k: HelpKind| grade_spec(TaskLoss::PART, k).unwrap();
    assert(f(HelpKind::Guided) == 80i32);
    assert(f(HelpKind::Code) == 40i32);
    assert(f(HelpKind::Debug) == 80i32);
    assert(f(HelpKind::Problem) == 90i32);
    assert((if guided { seq![f(HelpKind::Guided)] } else { Seq::empty() }) =~= (if guided { seq![80i32] } else { Seq::empty() }));
    assert((if code { seq![f(HelpKind::Code)] } else { Seq::empty() }) =~= (if code { seq![40i32] } else { Seq::empty() }));
    assert((if debug { seq![f(HelpKind::Debug)] } else { Seq::empty() }) =~= (if debug { seq![80i32] } else { Seq::empty() }));
    assert((if problem { seq![f(HelpKind::Problem)] } else { Seq::empty() }) =~= (if problem { seq![90i32] } else { Seq::empty() }));
}

/// Grades a task from its self-assessment under a loss policy.
#[derive(Debug, Clone)]
pub struct TaskGrader<'a> {
    info: &'a TaskSelfInfo,
    loss: TaskLoss,
}

impl<'a> TaskGrader<'a> {
    /// A grader of `task_info` under `task_loss`.
    pub fn new(task_loss: TaskLoss, task_info: &'a TaskSelfInfo) -> (r: Self)
        ensures
            r.loss() == task_loss,
            r.info() == task_info,
    {
        TaskGrader { info: task_info, loss: task_loss }
    }

    pub closed spec fn loss(&self) -> TaskLoss {
        self.loss
    }

    pub closed spec fn info(&self) -> &'a TaskSelfInfo {
        self.info
    }

    /// The loss policy.
    pub fn get_loss(&self) -> (r: TaskLoss)
        ensures
            r == self.loss(),
    {
        self.loss
    }

    /// The self-assessment being graded.
    pub fn get_info(&self) -> (r: &'a TaskSelfInfo)
        ensures
            r == self.info(),
    {
        self.info
    }

    /// The percentage kept after one kind of help.
    pub fn grade(&self, kind: HelpKind) -> (r: Option<i32>)
        ensures
            r == grade_spec(self.loss(), kind),
            self.loss() == TaskLoss::PART && kind == HelpKind::Code ==> r == Some(40i32),
            self.loss() == TaskLoss::PART && kind == HelpKind::Problem ==> r == Some(90i32),
            self.loss() == TaskLoss::PART && (kind == HelpKind::Guided || kind == HelpKind::Debug) ==> r == Some(80i32),
    {
        match self.loss {
            TaskLoss::NULL => None,
            TaskLoss::FREE => Some(100),
            TaskLoss::PART => Some(
                match kind {
                    HelpKind::Guided => 80,
                    HelpKind::Code => 40,
                    HelpKind::Debug => 80,
                    HelpKind::Problem => 90,
                },
            ),
            TaskLoss::ZERO => Some(0),
        }
    }

    /// The self-assessed rate, in percent.
    pub fn get_rate(&self) -> (r: i32)
        ensures
            r == self.info().rate,
    {
        self.info.rate
    }

    /// The percentages that multiply the quality (which starts at 100):
    /// `Some` of an empty list when no feedback was given (quality 0 then),
    /// else one per kind of help used; `None` where the policy has no table.
    pub fn quality_factors(&self) -> (r: Option<Vec<i32>>)
        ensures
            !self.info().feedback ==> r is Some && r.unwrap()@ == Seq::<i32>::empty(),
            self.info().feedback ==> match r {
                Some(v) => quality_factors_spec(
                    self.loss(),
                    self.info().guided,
                    self.info().ia_code,
                    self.info().ia_debug,
                    self.info().ia_problem,
                ) == Some(v@),
                None => quality_factors_spec(
                    self.loss(),
                    self.info().guided,
                    self.info().ia_code,
                    self.info().ia_debug,
                    self.info().ia_problem,
                ) is None,
            },
    {
        let mut v: Vec<i32> = Vec::new();
        if !self.info.feedback {
            return Some(v);
        }
        let info = self.info;
        if (info.guided || info.ia_code || info.ia_debug || info.ia_problem) && self.loss
            == TaskLoss::NULL {
            return None;
        }
        let ghost f = |k: HelpKind| grade_spec(self.loss(), k).unwrap();
        if info.guided {
            v.push(self.grade(HelpKind::Guided).unwrap());
        }
        let ghost a = v@;
        if info.ia_code {
            v.push(self.grade(HelpKind::Code).unwrap());
        }
        let ghost b = v@;
        if info.ia_debug {
            v.push(self.grade(HelpKind::Debug).unwrap());
        }
        let ghost c = v@;
        if info.ia_problem {
            v.push(self.grade(HelpKind::Problem).unwrap());
        }
        proof {
            let g = if info.guided { seq![f(HelpKind::Guided)] } else { Seq::empty() };
            let co = if info.ia_code { seq![f(HelpKind::Code)] } else { Seq::empty() };
            let d = if info.ia_debug { seq![f(HelpKind::Debug)] } else { Seq::empty() };
            let p = if info.ia_problem { seq![f(HelpKind::Problem)] } else { Seq::empty() };
            assert(a =~= g);
            assert(b =~= g + co);
            assert(c =~= g + co + d);
            assert(v@ =~= g + co + d + p);
        }
        Some(v)
    }
}

/// The configuration of a task.
#[derive(Debug, Clone, Copy)]
pub struct TaskConfig {
    pub test: TaskTest,
    pub path: TaskMain,
    pub loss: TaskLoss,
    pub mode: TaskEdit,
}

impl Default for TaskConfig {
    /// Tested, main path, partial loss, edited.
    fn default() -> (r: Self)
        ensures
            r.test == TaskTest::TEST,
            r.path == TaskMain::MAIN,
            r.loss == TaskLoss::PART,
            r.mode == TaskEdit::EDIT,
    {
        TaskConfig { test: TaskTest::TEST, path: TaskMain::MAIN, loss: TaskLoss::PART, mode: TaskEdit::EDIT }
    }
}

impl TaskConfig {
    /// A grader of `info` under this configuration's loss policy.
    pub fn build_grader<'a>(&self, info: &'a TaskSelfInfo) -> (r: TaskGrader<'a>)
        ensures
            r.loss() == self.loss,
            r.info() == info,
    {
        TaskGrader::new(self.loss, info)
    }
}

} // verus!
