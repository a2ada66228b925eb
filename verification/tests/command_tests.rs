use toaster::args::Arguments;
use toaster::color::Color;
use toaster::command_builder::{format_stage_output, sort_strings, CommandBuilder};
use toaster::command_stage::Stage;
use toaster::config::{
    compile_command, compile_config, compile_system, handle_special_parameters, RawCommand,
    RawSystem, SortRules, SpecialFields,
};
use toaster::text::{split_string, str_eq, trim};

fn strings(xs: &[&str]) -> Vec<String> {
    xs.iter().map(|s| s.to_string()).collect()
}

#[test]
fn color_lookup_ignores_case() {
    assert_eq!(Color::from_str("RED"), Some(Color::Red));
    assert_eq!(Color::from_str("Cyan"), Some(Color::Cyan));
    assert_eq!(Color::from_str("bright_green"), Some(Color::BrightGreen));
    assert_eq!(Color::from_str("bright_red"), Some(Color::BrightRed));
    assert_eq!(Color::from_str("chartreuse"), None);
}

#[test]
fn color_ansi_codes() {
    assert_eq!(Color::Red.ansi_code(), "\x1b[31m");
    assert_eq!(Color::BrightGreen.ansi_code(), "\x1b[92m");
}

#[test]
fn special_parameters_color_and_order() {
    let sf = handle_special_parameters(&strings(&["color:cyan", "o:l6;"]));
    assert_eq!(sf.color, Color::Cyan);
    let rules = sf.sorted.unwrap();
    assert!(rules.sorting);
    assert_eq!(rules.items_per_line, 6);
}

#[test]
fn special_parameters_sorting_off() {
    let sf = handle_special_parameters(&strings(&["color:cyan", "o:-s"]));
    assert_eq!(sf.color, Color::Cyan);
    let rules = sf.sorted.unwrap();
    assert!(!rules.sorting);
    assert_eq!(rules.items_per_line, 1);
}

#[test]
fn special_parameters_unknown_color_is_white() {
    let sf = handle_special_parameters(&strings(&["color:nope"]));
    assert_eq!(sf.color, Color::White);
}

#[test]
fn special_parameters_unknown_ignored() {
    let sf = handle_special_parameters(&strings(&["whatever"]));
    assert_eq!(sf.color, Color::White);
    let rules = sf.sorted.unwrap();
    assert!(!rules.sorting);
    assert_eq!(rules.items_per_line, 1);
}

#[test]
fn compile_system_parses_schedules() {
    let raw = RawSystem {
        name: "Backup".to_string(),
        description: "d".to_string(),
        shell: "sh".to_string(),
        stages: strings(&["echo a", "echo b"]),
        schedules: strings(&["0:0:0:0:30", "0:0:1:0:0"]),
    };
    let sb = compile_system(&raw).unwrap();
    assert_eq!(sb.name, "backup");
    assert_eq!(sb.stages.len(), 2);
    assert_eq!(sb.stages[0].command, "echo a");
    assert_eq!(sb.stages[0].schedule.get_as_u64(), 30);
    assert_eq!(sb.stages[1].schedule.get_as_u64(), 3600);
}

#[test]
fn compile_system_rejects_bad_schedule() {
    let raw = RawSystem {
        name: "x".to_string(),
        description: "d".to_string(),
        shell: "sh".to_string(),
        stages: strings(&["echo a"]),
        schedules: strings(&["0:0:30"]),
    };
    assert!(compile_system(&raw).is_err());
}

#[test]
fn compile_command_plain_stage() {
    let raw = RawCommand {
        name: "List".to_string(),
        description: "d".to_string(),
        shell: "sh".to_string(),
        stages: strings(&["echo hi"]),
    };
    let cb = compile_command(&raw).unwrap();
    assert_eq!(cb.name, "list");
    assert_eq!(cb.stages.len(), 1);
    assert_eq!(cb.stages[0].command, "echo hi");
    assert_eq!(cb.stages[0].color, Color::White);
    assert!(cb.stages[0].sorted.is_none());
}

#[test]
fn compile_command_special_stage() {
    let raw = RawCommand {
        name: "ls".to_string(),
        description: "d".to_string(),
        shell: "sh".to_string(),
        stages: strings(&["%[color:green,o:l2;] ls -a"]),
    };
    let cb = compile_command(&raw).unwrap();
    assert_eq!(cb.stages.len(), 1);
    assert_eq!(cb.stages[0].command, " ls -a");
    assert_eq!(cb.stages[0].color, Color::Green);
    let rules = cb.stages[0].sorted.unwrap();
    assert!(rules.sorting);
    assert_eq!(rules.items_per_line, 2);
}

#[test]
fn compile_command_drops_malformed_and_empty() {
    // No opening bracket, no closing bracket, and an empty remainder: none
    // of these adds a stage, so the command is dropped.
    let raw = RawCommand {
        name: "bad".to_string(),
        description: "d".to_string(),
        shell: "sh".to_string(),
        stages: strings(&["%noparams", "%[color:red", "%[color:red]"]),
    };
    assert!(compile_command(&raw).is_none());
}

#[test]
fn compile_config_compiles_everything() {
    let systems = vec![RawSystem {
        name: "j".to_string(),
        description: "d".to_string(),
        shell: "sh".to_string(),
        stages: strings(&["echo a"]),
        schedules: strings(&["0:0:0:0:5"]),
    }];
    let commands = vec![
        RawCommand {
            name: "keep".to_string(),
            description: "d".to_string(),
            shell: "sh".to_string(),
            stages: strings(&["echo hi"]),
        },
        RawCommand {
            name: "drop".to_string(),
            description: "d".to_string(),
            shell: "sh".to_string(),
            stages: strings(&["%[color:red]"]),
        },
    ];
    let (sys, cmds) = compile_config(&systems, &commands).unwrap();
    assert_eq!(sys.len(), 1);
    assert_eq!(sys[0].0, "j");
    assert_eq!(cmds.len(), 1);
    assert_eq!(cmds[0].0, "keep");
}

#[test]
fn command_builder_keeps_declaration_order() {
    let mut cb = CommandBuilder::new("N".to_string(), "d".to_string(), "sh".to_string());
    assert_eq!(cb.name, "n");
    cb.add_stage("one".to_string(), Color::Red, None);
    cb.add_stage("two".to_string(), Color::Blue, Some(SortRules::new(3, true)));
    let stages = cb.get_stages();
    assert_eq!(stages.len(), 2);
    assert_eq!(stages[0].command, "one");
    assert_eq!(stages[1].command, "two");
    assert_eq!(cb.get_map().len(), 2);
}

#[test]
fn sort_strings_orders_and_keeps_duplicates() {
    let sorted = sort_strings(strings(&["b", "a", "c", "b"]));
    assert_eq!(sorted, strings(&["a", "b", "b", "c"]));
}

#[test]
fn format_unsorted_output_is_one_colored_line() {
    let stage = Stage::new("c".to_string(), Color::Red, None);
    let lines = format_stage_output(&stage, "hello");
    assert_eq!(lines, vec!["\x1b[31mhello\x1b[0m".to_string()]);
}

#[test]
fn format_sorted_output_groups_words() {
    let stage = Stage::new(
        "c".to_string(),
        Color::White,
        Some(SortRules::new(2, true)),
    );
    let lines = format_stage_output(&stage, "b a c");
    assert_eq!(
        lines,
        vec![
            "\x1b[37ma, b\x1b[0m".to_string(),
            "\x1b[37mc\x1b[0m".to_string(),
        ]
    );
}

#[test]
fn format_empty_output_has_no_lines() {
    let stage = Stage::new("c".to_string(), Color::Red, None);
    assert!(format_stage_output(&stage, "").is_empty());
}

#[test]
fn special_fields_constructor() {
    let sf = SpecialFields::new(Color::Blue, Some(SortRules::new(4, false)));
    assert_eq!(sf.color, Color::Blue);
    assert_eq!(sf.sorted.unwrap().items_per_line, 4);
}

#[test]
fn text_helpers() {
    assert!(str_eq("abc", "abc"));
    assert!(!str_eq("abc", "abd"));
    assert_eq!(trim("  hi \n"), "hi");
    assert_eq!(split_string("a,b,,c", ','), strings(&["a", "b", "", "c"]));
    assert_eq!(split_string("", ','), strings(&[""]));
}

#[test]
fn arguments_cursor() {
    let mut a = Arguments::new(strings(&["prog", "x", "y"]));
    assert_eq!(a.current().unwrap(), "x");
    assert!(a.has_next());
    assert_eq!(a.next().unwrap(), "x");
    assert_eq!(a.peek().unwrap(), "y");
    assert_eq!(a.next().unwrap(), "y");
    assert!(a.next().is_none());
    assert!(!a.has_next());

    let mut empty = Arguments::new(Vec::new());
    assert!(!empty.has_next());
    assert!(empty.next().is_none());
}
