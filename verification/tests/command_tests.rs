use pepper::command::{
    format_parse_error, BuiltinCommand, CommandArg, CommandManager, CommandParseError,
};

fn create_commands() -> CommandManager {
    let mut commands = CommandManager::new();
    commands.register_builtin(BuiltinCommand {
        name: "command-name",
        alias: Some("c"),
        help: "",
    });
    commands
}

fn assert_command(commands: &mut CommandManager, text: &str, expected_bang: bool) {
    let (index, bang) = match commands.parse(text.as_bytes()) {
        Ok(result) => result,
        Err(_) => panic!("command parse error"),
    };
    assert_eq!(0, index);
    assert_eq!(expected_bang, bang);
}

#[test]
fn command_parsing() {
    let mut commands = create_commands();
    assert_command(&mut commands, "command-name", false);
    assert_command(&mut commands, "  command-name  ", false);
    assert_command(&mut commands, "  command-name!  ", true);
    assert_command(&mut commands, "  command-name!", true);
}

#[test]
fn command_command_parsing() {
    let mut commands = create_commands();
    assert_command(&mut commands, "command-name", false);
    assert_command(&mut commands, "  command-name  ", false);
    assert_command(&mut commands, "  command-name!  ", true);
    assert_command(&mut commands, "  command-name!", true);
}

fn parse_args(commands: &mut CommandManager, params: &str) {
    if commands
        .parse(format!("command-name {}", params).as_bytes())
        .is_err()
    {
        panic!("command parse error");
    }
}

#[test]
fn arg_parsing() {
    let mut commands = create_commands();

    parse_args(&mut commands, "  aaa  bbb  ccc  ");
    let args = commands.parsed_args();
    assert_eq!(3, args.values().len());
    assert_eq!(0, args.switches().len());
    assert_eq!(0, args.options().len());
    assert_eq!(b"aaa".as_slice(), args.values()[0].as_str(args));
    assert_eq!(b"bbb".as_slice(), args.values()[1].as_str(args));
    assert_eq!(b"ccc".as_slice(), args.values()[2].as_str(args));

    parse_args(&mut commands, "  'aaa'  \"bbb\"  ccc  ");
    let args = commands.parsed_args();
    assert_eq!(3, args.values().len());
    assert_eq!(0, args.switches().len());
    assert_eq!(0, args.options().len());
    assert_eq!(b"aaa".as_slice(), args.values()[0].as_str(args));
    assert_eq!(b"bbb".as_slice(), args.values()[1].as_str(args));
    assert_eq!(b"ccc".as_slice(), args.values()[2].as_str(args));

    parse_args(&mut commands, "  'aaa'\"bbb\"\"ccc\"ddd  ");
    let args = commands.parsed_args();
    assert_eq!(4, args.values().len());
    assert_eq!(0, args.switches().len());
    assert_eq!(0, args.options().len());
    assert_eq!(b"aaa".as_slice(), args.values()[0].as_str(args));
    assert_eq!(b"bbb".as_slice(), args.values()[1].as_str(args));
    assert_eq!(b"ccc".as_slice(), args.values()[2].as_str(args));
    assert_eq!(b"ddd".as_slice(), args.values()[3].as_str(args));

    parse_args(&mut commands, "-switch'value'-option=\"option value!\"");
    let args = commands.parsed_args();
    assert_eq!(1, args.values().len());
    assert_eq!(1, args.switches().len());
    assert_eq!(1, args.options().len());
    assert_eq!(b"value".as_slice(), args.values()[0].as_str(args));
    assert_eq!(b"switch".as_slice(), args.switches()[0].as_str(args));
    assert_eq!(b"option".as_slice(), args.options()[0].0.as_str(args));
    assert_eq!(b"option value!".as_slice(), args.options()[0].1.as_str(args));
}

#[test]
fn command_arg_parsing() {
    let mut commands = create_commands();

    parse_args(&mut commands, "  aaa  bbb  ccc  ");
    {
        let args = commands.parsed_args();
        let mut iter = args.iter().iter();
        match iter.next() {
            Some(&CommandArg::Value(s)) => assert_eq!(b"aaa".as_slice(), s.as_str(args)),
            Some(_) => panic!("unexpected arg kind"),
            None => panic!("no more args"),
        }
        match iter.next() {
            Some(&CommandArg::Value(s)) => assert_eq!(b"bbb".as_slice(), s.as_str(args)),
            Some(_) => panic!("unexpected arg kind"),
            None => panic!("no more args"),
        }
        match iter.next() {
            Some(&CommandArg::Value(s)) => assert_eq!(b"ccc".as_slice(), s.as_str(args)),
            Some(_) => panic!("unexpected arg kind"),
            None => panic!("no more args"),
        }
        assert!(iter.next().is_none());
    }

    parse_args(&mut commands, "  'aaa'\"bbb\"\"ccc\"ddd  ");
    {
        let args = commands.parsed_args();
        let mut iter = args.iter().iter();
        match iter.next() {
            Some(&CommandArg::Value(s)) => assert_eq!(b"aaa".as_slice(), s.as_str(args)),
            Some(_) => panic!("unexpected arg kind"),
            None => panic!("no more args"),
        }
        match iter.next() {
            Some(&CommandArg::Value(s)) => assert_eq!(b"bbb".as_slice(), s.as_str(args)),
            Some(_) => panic!("unexpected arg kind"),
            None => panic!("no more args"),
        }
        match iter.next() {
            Some(&CommandArg::Value(s)) => assert_eq!(b"ccc".as_slice(), s.as_str(args)),
            Some(_) => panic!("unexpected arg kind"),
            None => panic!("no more args"),
        }
        match iter.next() {
            Some(&CommandArg::Value(s)) => assert_eq!(b"ddd".as_slice(), s.as_str(args)),
            Some(_) => panic!("unexpected arg kind"),
            None => panic!("no more args"),
        }
        assert!(iter.next().is_none());
    }

    parse_args(&mut commands, "-switch'value'-option=\"option value!\"");
    {
        let args = commands.parsed_args();
        let mut iter = args.iter().iter();
        match iter.next() {
            Some(&CommandArg::Switch(s)) => assert_eq!(b"switch".as_slice(), s.as_str(args)),
            Some(_) => panic!("unexpected arg kind"),
            None => panic!("no more args"),
        }
        match iter.next() {
            Some(&CommandArg::Value(s)) => assert_eq!(b"value".as_slice(), s.as_str(args)),
            Some(_) => panic!("unexpected arg kind"),
            None => panic!("no more args"),
        }
        match iter.next() {
            Some(&CommandArg::Option(k, v)) => {
                assert_eq!(b"option".as_slice(), k.as_str(args));
                assert_eq!(b"option value!".as_slice(), v.as_str(args));
            }
            Some(_) => panic!("unexpected arg kind"),
            None => panic!("no more args"),
        }
        assert!(iter.next().is_none());
    }
}

fn assert_invalid_command_name(commands: &mut CommandManager, text: &str, expected: usize) {
    match commands.parse(text.as_bytes()) {
        Ok(_) => panic!("command parsed successfully"),
        Err(CommandParseError::InvalidCommandName(i)) => assert_eq!(expected, i),
        Err(_) => panic!("other error occurred"),
    }
}

fn assert_unterminated(commands: &mut CommandManager, text: &str, expected: usize) {
    match commands.parse(text.as_bytes()) {
        Ok(_) => panic!("command parsed successfully"),
        Err(CommandParseError::UnterminatedArgument(i)) => assert_eq!(expected, i),
        Err(_) => panic!("other error occurred"),
    }
}

#[test]
fn command_parsing_fail() {
    let mut commands = create_commands();

    assert_invalid_command_name(&mut commands, "", 0);
    assert_invalid_command_name(&mut commands, "   ", 3);
    assert_invalid_command_name(&mut commands, " !", 1);
    assert_invalid_command_name(&mut commands, "!  'aa'", 0);
    match commands.parse(b"c -o=") {
        Ok(_) => panic!("command parsed successfully"),
        Err(CommandParseError::InvalidOptionValue(i)) => assert_eq!(4, i),
        Err(_) => panic!("other error occurred"),
    }
    match commands.parse(b"  a \"aa\"") {
        Ok(_) => panic!("command parsed successfully"),
        Err(CommandParseError::CommandNotFound(i)) => assert_eq!(2, i),
        Err(_) => panic!("other error occurred"),
    }
    assert_unterminated(&mut commands, "c! 'abc", 3);
    assert_unterminated(&mut commands, "c! '", 3);
    assert_unterminated(&mut commands, "c! \"'", 3);
}

#[test]
fn command_command_parsing_fail() {
    let mut commands = create_commands();

    assert_invalid_command_name(&mut commands, "", 0);
    assert_invalid_command_name(&mut commands, "   ", 3);
    assert_invalid_command_name(&mut commands, " !", 1);
    assert_invalid_command_name(&mut commands, "!  'aa'", 0);
    match commands.parse(b"c -o=") {
        Ok(_) => panic!("command parsed successfully"),
        Err(CommandParseError::InvalidOptionValue(i)) => assert_eq!(4, i),
        Err(_) => panic!("other error occurred"),
    }
    match commands.parse(b"  a \"aa\"") {
        Ok(_) => panic!("command parsed successfully"),
        Err(CommandParseError::CommandNotFound(i)) => assert_eq!(2, i),
        Err(_) => panic!("other error occurred"),
    }
    assert_unterminated(&mut commands, "c! 'abc", 3);
    assert_unterminated(&mut commands, "c! '", 3);
    assert_unterminated(&mut commands, "c! \"'", 3);
}

#[test]
fn command_history_is_capped() {
    let mut commands = create_commands();
    assert_eq!(0, commands.history_len());
    commands.add_to_history(b"");
    assert_eq!(0, commands.history_len());
    let mut i = 0;
    while i < 12 {
        let entry = format!("entry-{}", i);
        commands.add_to_history(entry.as_bytes());
        i += 1;
    }
    assert_eq!(10, commands.history_len());
    assert_eq!(b"entry-2".as_slice(), commands.history_entry(0));
    assert_eq!(b"entry-11".as_slice(), commands.history_entry(9));
    assert_eq!(b"".as_slice(), commands.history_entry(10));
}

#[test]
fn parse_error_report_points_at_the_byte() {
    let report = format_parse_error(CommandParseError::CommandNotFound(2), b"  a");
    assert_eq!(b"  a\n  ^ command not found".to_vec(), report);
    let report = format_parse_error(CommandParseError::InvalidCommandName(0), b"!");
    assert_eq!(b"!\n^ invalid command name".to_vec(), report);
}

#[test]
fn eval_reports_errors_in_output() {
    let mut commands = create_commands();
    assert!(commands.eval(b"command-name!").is_ok());
    assert!(commands.eval(b"nope").is_err());
    assert_eq!(
        b"nope\n^ command not found".to_vec(),
        commands.output().as_bytes().to_vec()
    );
}
