//! The plain-text report of one agent run, as copied from its detail panel.
//!
//! Durations arrive already worded (the caller renders milliseconds and
//! seconds); this module lays out the report around them.
use vstd::prelude::*;
use crate::text::{decimal, push_decimal, trim, trim_str};

verus! {

/// One tool call of a step, with its duration already worded.
#[derive(Debug)]
pub struct AgentRunToolText {
    pub name: String,
    pub duration: String,
    pub args: String,
    pub result: String,
}

/// One step of a run, with its duration already worded.
#[derive(Debug)]
pub struct AgentRunStepText {
    pub index: usize,
    pub phase: String,
    pub duration: String,
    pub model_output: String,
    pub tools: Vec<AgentRunToolText>,
}

/// A whole run, with its total duration already worded.
#[derive(Debug)]
pub struct AgentRunText {
    pub model: String,
    pub status: String,
    pub total_duration: String,
    pub steps: Vec<AgentRunStepText>,
}

/// The report section of one tool call.
pub open spec fn tool_section(t: AgentRunToolText) -> Seq<char> {
    "\n工具: "@ + t.name@ + " | "@ + t.duration@ + "\n"@
        + "参数:\n"@ + trim(t.args@) + "\n"@
        + "完整返回:\n"@ + trim(t.result@) + "\n"@
}

/// The sections of several tool calls, in order.
pub open spec fn tool_sections(ts: Seq<AgentRunToolText>) -> Seq<char>
    decreases ts.len(),
{
    if ts.len() == 0 {
        seq![]
    } else {
        tool_sections(ts.drop_last()) + tool_section(ts.last())
    }
}

/// The model's output in a step's section, when it has any.
pub open spec fn output_section(model_output: Seq<char>) -> Seq<char> {
    if trim(model_output).len() > 0 {
        "模型输出:\n"@ + trim(model_output) + "\n"@
    } else {
        seq![]
    }
}

/// The report section of one step.
pub open spec fn step_section(s: AgentRunStepText) -> Seq<char> {
    "步骤 #"@ + decimal(s.index as nat) + " | "@ + s.phase@ + " | "@ + s.duration@ + "\n"@
        + output_section(s.model_output@) + tool_sections(s.tools@) + "\n"@
}

/// The sections of several steps, in order.
pub open spec fn step_sections(ss: Seq<AgentRunStepText>) -> Seq<char>
    decreases ss.len(),
{
    if ss.len() == 0 {
        seq![]
    } else {
        step_sections(ss.drop_last()) + step_section(ss.last())
    }
}

/// The whole report: a header with the model, status and total duration,
/// then each step.
pub open spec fn run_report(r: AgentRunText) -> Seq<char> {
    "Agent 运行详情\n"@ + "模型: "@ + r.model@ + "\n"@ + "状态: "@ + r.status@ + "\n"@
        + "总耗时: "@ + r.total_duration@ + "\n\n"@ + step_sections(r.steps@)
}

fn push_str(out: &mut String, s: &str)
    ensures
        final(out)@ == old(out)@ + s@,
{
    out.append(s);
}

fn push_tool(out: &mut String, t: &AgentRunToolText)
    ensures
        final(out)@ == old(out)@ + tool_section(*t),
{
    let ghost start = out@;
    push_str(out, "\n工具: ");
    push_str(out, t.name.as_str());
    push_str(out, " | ");
    push_str(out, t.duration.as_str());
    push_str(out, "\n");
    push_str(out, "参数:\n");
    let args = trim_str(t.args.as_str());
    push_str(out, args.as_str());
    push_str(out, "\n");
    push_str(out, "完整返回:\n");
    let result = trim_str(t.result.as_str());
    push_str(out, result.as_str());
    push_str(out, "\n");
    assert(out@ =~= start + tool_section(*t));
}

fn push_step(out: &mut String, s: &AgentRunStepText)
    ensures
        final(out)@ == old(out)@ + step_section(*s),
{
    let ghost start = out@;
    push_str(out, "步骤 #");
    push_decimal(out, s.index as u64);
    push_str(out, " | ");
    push_str(out, s.phase.as_str());
    push_str(out, " | ");
    push_str(out, s.duration.as_str());
    push_str(out, "\n");
    let ghost head = out@;
    let output = trim_str(s.model_output.as_str());
    if !output.as_str().is_empty() {
        push_str(out, "模型输出:\n");
        push_str(out, output.as_str());
        push_str(out, "\n");
    }
    assert(out@ =~= head + output_section(s.model_output@));
    let ghost mid = out@;
    let mut i: usize = 0;
    while i < s.tools.len()
        invariant
            i <= s.tools@.len(),
            out@ == mid + tool_sections(s.tools@.take(i as int)),
        decreases s.tools.len() - i,
    {
        push_tool(out, &s.tools[i]);
        proof {
            assert(s.tools@.take(i + 1).drop_last() =~= s.tools@.take(i as int));
        }
        i += 1;
        assert(out@ =~= mid + tool_sections(s.tools@.take(i as int)));
    }
    assert(s.tools@.take(s.tools@.len() as int) =~= s.tools@);
    push_str(out, "\n");
    assert(out@ =~= start + step_section(*s));
}

/// The plain-text report of a run.
pub fn build_agent_run_full_text(detail: &AgentRunText) -> (r: String)
    ensures
        r@ == run_report(*detail),
{
    let mut out = String::new();
    push_str(&mut out, "Agent 运行详情\n");
    push_str(&mut out, "模型: ");
    push_str(&mut out, detail.model.as_str());
    push_str(&mut out, "\n");
    push_str(&mut out, "状态: ");
    push_str(&mut out, detail.status.as_str());
    push_str(&mut out, "\n");
    push_str(&mut out, "总耗时: ");
    push_str(&mut out, detail.total_duration.as_str());
    push_str(&mut out, "\n\n");
    let ghost head = out@;
    let mut i: usize = 0;
    while i < detail.steps.len()
        invariant
            i <= detail.steps@.len(),
            out@ == head + step_sections(detail.steps@.take(i as int)),
        decreases detail.steps.len() - i,
    {
        push_step(&mut out, &detail.steps[i]);
        proof {
            assert(detail.steps@.take(i + 1).drop_last() =~= detail.steps@.take(i as int));
        }
        i += 1;
        assert(out@ =~= head + step_sections(detail.steps@.take(i as int)));
    }
    assert(detail.steps@.take(detail.steps@.len() as int) =~= detail.steps@);
    assert(out@ =~= run_report(*detail));
    out
}

} // verus!
