use pusa_ui::agent_run::{build_agent_run_full_text, AgentRunStepText, AgentRunText, AgentRunToolText};

#[test]
fn agent_run_report_lays_out_steps_and_tools() {
    let detail = AgentRunText {
        model: "gpt-x".into(),
        status: "done".into(),
        total_duration: "2.5 s".into(),
        steps: vec![
            AgentRunStepText {
                index: 12,
                phase: "thinking".into(),
                duration: "800 ms".into(),
                model_output: "  plan it \n".into(),
                tools: vec![AgentRunToolText {
                    name: "read_file".into(),
                    duration: "5 ms".into(),
                    args: " {\"path\":\"a\"} ".into(),
                    result: "\nok\n".into(),
                }],
            },
            AgentRunStepText {
                index: 0,
                phase: "done".into(),
                duration: "计时中".into(),
                model_output: "   ".into(),
                tools: vec![],
            },
        ],
    };
    let expected = "Agent 运行详情\n模型: gpt-x\n状态: done\n总耗时: 2.5 s\n\n\
步骤 #12 | thinking | 800 ms\n模型输出:\nplan it\n\
\n工具: read_file | 5 ms\n参数:\n{\"path\":\"a\"}\n完整返回:\nok\n\
\n\
步骤 #0 | done | 计时中\n\n";
    assert_eq!(build_agent_run_full_text(&detail), expected);
}

#[test]
fn agent_run_report_without_steps_is_header_only() {
    let detail = AgentRunText {
        model: "m".into(),
        status: "running".into(),
        total_duration: "计时中".into(),
        steps: vec![],
    };
    assert_eq!(
        build_agent_run_full_text(&detail),
        "Agent 运行详情\n模型: m\n状态: running\n总耗时: 计时中\n\n"
    );
}
