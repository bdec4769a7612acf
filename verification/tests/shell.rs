use funknotes::shell::{launch, read_command, Launch, ShellCommand};

#[test]
fn launch_modes() {
    assert_eq!(launch("shell"), Launch::Shell);
    assert_eq!(launch("funknotes shell()"), Launch::Shell);
    assert_eq!(launch(".shell().x()"), Launch::Shell);
    assert_eq!(launch(""), Launch::Usage);
    assert_eq!(launch(" "), Launch::Run(" ".to_string()));
    assert_eq!(launch("shell "), Launch::Run("shell ".to_string()));
    assert_eq!(launch(".new(\"X\")"), Launch::Run(".new(\"X\")".to_string()));
}

#[test]
fn shell_commands() {
    for word in ["exit", "quit", "q", "drop", "  exit \n", "q\n"] {
        assert_eq!(read_command(word), ShellCommand::Exit, "{word:?}");
    }
    assert_eq!(read_command("help\n"), ShellCommand::Overview);
    assert_eq!(read_command("  help  "), ShellCommand::Overview);
    assert_eq!(read_command("\n"), ShellCommand::Nothing);
    assert_eq!(read_command(""), ShellCommand::Nothing);
    assert_eq!(read_command("   "), ShellCommand::Nothing);
    assert_eq!(read_command("?new()\n"), ShellCommand::ParseOnly("new()".to_string()));
    assert_eq!(read_command("?"), ShellCommand::ParseOnly("".to_string()));
    assert_eq!(read_command("? x"), ShellCommand::ParseOnly(" x".to_string()));
    assert_eq!(read_command(" new(\"a b\") \n"), ShellCommand::Run("new(\"a b\")".to_string()));
    assert_eq!(read_command("exit now"), ShellCommand::Run("exit now".to_string()));
    assert_eq!(read_command("Help"), ShellCommand::Run("Help".to_string()));
}
