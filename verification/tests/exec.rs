use helto_launcher::error::LauncherError;
use helto_launcher::exec::{parse_exec, ExecContext};

fn context<'a>() -> ExecContext<'a> {
    ExecContext {
        name: "Firefox",
        icon: Some("firefox"),
        desktop_path: "/usr/share/applications/firefox.desktop",
    }
}

#[test]
fn removes_file_and_url_placeholders() {
    let command = parse_exec("firefox %u --new-window %F", &context()).unwrap();
    assert_eq!(command.program, "firefox");
    assert_eq!(command.args, ["--new-window"]);
}

#[test]
fn handles_quotes_and_percent_escape() {
    let command = parse_exec("app --name \"Hello World\" --ratio 100%%", &context()).unwrap();
    assert_eq!(
        command.as_vec(),
        ["app", "--name", "Hello World", "--ratio", "100%"]
    );
}

#[test]
fn expands_name_icon_and_desktop_path() {
    let command = parse_exec("app %i --class %c --desktop %k", &context()).unwrap();
    assert_eq!(
        command.as_vec(),
        [
            "app",
            "--icon",
            "firefox",
            "--class",
            "Firefox",
            "--desktop",
            "/usr/share/applications/firefox.desktop"
        ]
    );
}

#[test]
fn single_quotes_and_backslashes() {
    let command = parse_exec(r#"sh -c 'echo "a b"' x\ y "q\"t" end\"#, &context()).unwrap();
    assert_eq!(
        command.as_vec(),
        ["sh", "-c", "echo \"a b\"", "x y", "q\"t", "end\\"]
    );
}

#[test]
fn icon_placeholder_without_icon_vanishes() {
    let ctx = ExecContext {
        name: "App",
        icon: None,
        desktop_path: "app.desktop",
    };
    let command = parse_exec("app %i --x%i", &ctx).unwrap();
    assert_eq!(command.as_vec(), ["app", "--x"]);
}

#[test]
fn rejects_unterminated_quote() {
    let err = parse_exec("app 'open", &context()).unwrap_err();
    assert_eq!(
        err,
        LauncherError::ExecLine {
            exec_line: "app 'open".to_string(),
            reason: "unterminated quote".to_string(),
        }
    );
}

#[test]
fn rejects_dangling_percent() {
    let err = parse_exec("app 50%", &context()).unwrap_err();
    assert_eq!(
        err,
        LauncherError::ExecLine {
            exec_line: "50%".to_string(),
            reason: "dangling `%` placeholder".to_string(),
        }
    );
}

#[test]
fn rejects_unknown_placeholder() {
    let err = parse_exec("app %z", &context()).unwrap_err();
    assert_eq!(
        err.to_string(),
        "Could not parse Exec line `%z`: unsupported desktop Exec placeholder `%z`"
    );
}

#[test]
fn rejects_line_without_command() {
    let err = parse_exec("  %U  %f ", &context()).unwrap_err();
    assert_eq!(
        err,
        LauncherError::ExecLine {
            exec_line: "  %U  %f ".to_string(),
            reason: "Exec did not contain a runnable command".to_string(),
        }
    );
}

#[test]
fn plain_exec_lines_split_on_whitespace() {
    let line = "  env\tFOO=1  app --flag \n value ";
    let command = parse_exec(line, &context()).unwrap();
    let expected: Vec<String> = line.split_whitespace().map(String::from).collect();
    assert_eq!(command.as_vec(), expected);
}
