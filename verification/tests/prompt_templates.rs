use clawpal::prompt_templates::{
    doctor_domain_system, error_guidance_operation_fallback, extract_prompt_block,
    install_domain_system, render_template,
};

#[test]
fn extracts_prompt_block() {
    let prompt = doctor_domain_system();
    assert!(prompt.contains("DOCTOR DOMAIN ONLY."));
}

#[test]
fn renders_tokens() {
    let rendered = render_template("a {{x}} b", &[("{{x}}", "ok")]);
    assert_eq!(rendered, "a ok b");
}

#[test]
fn extract_prompt_block_edge_cases() {
    assert_eq!(extract_prompt_block("  plain text \n"), "plain text");
    assert_eq!(extract_prompt_block("intro\n```prompt\n body \n```\nafter"), "body");
    assert_eq!(extract_prompt_block(" ```prompt unclosed "), "```prompt unclosed");
}

#[test]
fn render_template_replaces_every_occurrence_in_order() {
    assert_eq!(render_template("{{a}}{{a}}-{{b}}", &[("{{a}}", "{{b}}"), ("{{b}}", "x")]), "xx-x");
    assert_eq!(render_template("ab", &[("", "-")]), "-a-b-");
    assert_eq!(render_template("same", &[]), "same");
}

#[test]
fn other_prompts_are_extracted() {
    assert!(install_domain_system().starts_with("INSTALL DOMAIN ONLY."));
    assert!(error_guidance_operation_fallback().starts_with("You are ClawPal's internal diagnosis assistant."));
}
