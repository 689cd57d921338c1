use divera_status::api_types::{
    BasicMonitorStatus, Monitor, MonitorStatus, MonitorUser, Status, StatusMap, User, UserMap,
    UserStatus,
};
use divera_status::render::{format_output, RenderError};
use divera_status::types::Arguments;

fn args_with(shown: &str, format: &str, escape_quotes: bool) -> Arguments {
    Arguments {
        token: None,
        token_file: None,
        interval: 0,
        server: "".to_string(),
        shown_statuses: shown.to_string(),
        status_order: "4,1,2,3".to_string(),
        display_format: format.to_string(),
        escape_quotes,
        no_pango: false,
        debug: false,
    }
}

fn get_example_data() -> (Monitor, UserStatus, UserMap, StatusMap) {
    let monitor = Monitor {
        basic: vec![
            (1, BasicMonitorStatus { count: 2 }),
            (2, BasicMonitorStatus { count: 1 }),
            (3, BasicMonitorStatus { count: 0 }),
            (4, BasicMonitorStatus { count: 1 }),
        ],
        complex: vec![
            (
                1,
                MonitorStatus {
                    users: vec![MonitorUser { id: 9 }, MonitorUser { id: 6 }],
                },
            ),
            (2, MonitorStatus { users: vec![MonitorUser { id: 7 }] }),
            (3, MonitorStatus { users: vec![] }),
            (4, MonitorStatus { users: vec![MonitorUser { id: 8 }] }),
        ],
    };
    let user_status = UserStatus { status_id: 2 };
    let user_map: UserMap = vec![
        (6, User { name: "A".to_string() }),
        (7, User { name: "B".to_string() }),
        (8, User { name: "C".to_string() }),
        (9, User { name: "D".to_string() }),
    ];
    let status_map: StatusMap = vec![
        (1, Status { name: "one".to_string(), color_hex: "f1f".to_string() }),
        (2, Status { name: "two".to_string(), color_hex: "f2f".to_string() }),
        (3, Status { name: "three".to_string(), color_hex: "f3f".to_string() }),
        (4, Status { name: "four".to_string(), color_hex: "f4f".to_string() }),
    ];
    (monitor, user_status, user_map, status_map)
}

#[test]
fn test_i3blocks_format() {
    let args = args_with(
        "1,3,2",
        "{{\"full_text\": \"{full_text} <span color=\"#{status_color}\">@</span>\", \"short_text\": \"{short_text}\"}}",
        true,
    );
    let (monitor, user_status, user_map, status_map) = get_example_data();

    let output = format_output(&args, &monitor, &user_status, &user_map, &status_map).unwrap();

    let expected = "{\"full_text\": \"<span color=\\\"#f1f\\\">D, A</span> - <span color=\\\"#f2f\\\">B</span> <span color=\"#f2f\">@</span>\", \"short_text\": \"<span color=\\\"#f1f\\\">2</span>-<span color=\\\"#f2f\\\">1</span>\"}".to_string();

    assert_eq!(output, expected);
}

#[test]
fn end_to_end_scenario() {
    let args = args_with("1,3,2", "{full_text} ... {short_text}", true);
    let (monitor, user_status, user_map, status_map) = get_example_data();

    let output = format_output(&args, &monitor, &user_status, &user_map, &status_map).unwrap();

    let expected = "<span color=\\\"#f1f\\\">D, A</span> - <span color=\\\"#f2f\\\">B</span> ... <span color=\\\"#f1f\\\">2</span>-<span color=\\\"#f2f\\\">1</span>";
    assert_eq!(output, expected);
}

#[test]
fn zero_count_status_is_omitted() {
    let args = args_with("1,3,2", "{full_text}|{short_text}", false);
    let (monitor, user_status, user_map, status_map) = get_example_data();

    let output = format_output(&args, &monitor, &user_status, &user_map, &status_map).unwrap();

    let expected =
        "<span color=\"#f1f\">D, A</span> - <span color=\"#f2f\">B</span>|<span color=\"#f1f\">2</span>-<span color=\"#f2f\">1</span>";
    assert_eq!(output, expected);
    assert!(!output.contains("f3f"));
}

#[test]
fn missing_member_fails_render() {
    let args = args_with("1,2", "{full_text}", false);
    let (monitor, user_status, mut user_map, status_map) = get_example_data();
    // drop user 9, who stands in status 1's member list
    user_map.retain(|(id, _)| *id != 9);

    let result = format_output(&args, &monitor, &user_status, &user_map, &status_map);
    assert_eq!(result, Err(RenderError::UserNotInCache(9)));
}

#[test]
fn missing_own_status_fails_render() {
    let args = args_with("1,2", "{full_text}", false);
    let (monitor, _, user_map, status_map) = get_example_data();
    let user_status = UserStatus::new(99);

    let result = format_output(&args, &monitor, &user_status, &user_map, &status_map);
    assert_eq!(result, Err(RenderError::UserStatusNotInCache(99)));
}

#[test]
fn missing_snapshot_status_fails_render() {
    let args = args_with("1,2", "{full_text}", false);
    let (mut monitor, user_status, user_map, status_map) = get_example_data();
    monitor.complex.push((9, MonitorStatus { users: vec![] }));

    let result = format_output(&args, &monitor, &user_status, &user_map, &status_map);
    assert_eq!(result, Err(RenderError::StatusNotInCache(9)));
}

#[test]
fn missing_count_fails_render() {
    let args = args_with("1,2", "{full_text}", false);
    let (mut monitor, user_status, user_map, status_map) = get_example_data();
    monitor.basic.retain(|(id, _)| *id != 1);

    let result = format_output(&args, &monitor, &user_status, &user_map, &status_map);
    assert_eq!(result, Err(RenderError::CountNotInMonitor(1)));
}

#[test]
fn unknown_shown_status_fails_render() {
    let args = args_with("1,7", "{full_text}", false);
    let (monitor, user_status, user_map, status_map) = get_example_data();

    let result = format_output(&args, &monitor, &user_status, &user_map, &status_map);
    assert_eq!(
        result,
        Err(RenderError::UnknownShownStatus("7".to_string()))
    );
}

#[test]
fn unclosed_brace_fails_render() {
    let args = args_with("1,2", "{full_text", false);
    let (monitor, user_status, user_map, status_map) = get_example_data();

    let result = format_output(&args, &monitor, &user_status, &user_map, &status_map);
    assert_eq!(result, Err(RenderError::InvalidTemplate));
}

#[test]
fn unknown_template_name_fails_render() {
    let args = args_with("1,2", "{no_such_value}", false);
    let (monitor, user_status, user_map, status_map) = get_example_data();

    let result = format_output(&args, &monitor, &user_status, &user_map, &status_map);
    assert_eq!(
        result,
        Err(RenderError::UnknownTemplateName("no_such_value".to_string()))
    );
}

#[test]
fn template_values_for_each_status() {
    // every snapshot status, shown or not, feeds {id}, {id}_count, {id}_color
    let args = args_with("1", "{4}/{4_count}/{4_color}/{status_name}", false);
    let (monitor, user_status, user_map, status_map) = get_example_data();

    let output = format_output(&args, &monitor, &user_status, &user_map, &status_map).unwrap();
    assert_eq!(output, "C/1/f4f/two");
}
