use rusql::dispatch::SQLCommand;
use rusql::repl::CommandType;
use rusql::repl::MetaCommand;
use rusql::repl::get_command_type;

#[test]
fn meta_command_display_trait_test() {
    let exit = MetaCommand::Exit;
    let help = MetaCommand::Help;
    let cls = MetaCommand::Cls;
    let unknown = MetaCommand::Unknown;

    assert_eq!(exit.display_string(), ".exit");
    assert_eq!(help.display_string(), ".help");
    assert_eq!(cls.display_string(), ".cls");
    assert_eq!(unknown.display_string(), "Unknown Command");
}

#[test]
fn get_command_type_meta_command_test() {
    let input = String::from(".help");
    let expected = CommandType::MetaCommand(MetaCommand::Help);

    let result = get_command_type(&input);
    assert_eq!(result, Ok(expected));
}

#[test]
fn meta_command_classification() {
    assert_eq!(MetaCommand::new(".exit".to_string()), MetaCommand::Exit);
    assert_eq!(MetaCommand::new(".cls".to_string()), MetaCommand::Cls);
    assert_eq!(MetaCommand::new(".bogus".to_string()), MetaCommand::Unknown);
    assert_eq!(MetaCommand::new("  .help  ".to_string()), MetaCommand::Help);
}

#[test]
fn sql_text_is_not_a_meta_command() {
    let input = String::from("SELECT 1;");
    let result = get_command_type(&input);
    assert_eq!(result, Err("Invalid command type."));
}

#[test]
fn sql_command_classification() {
    assert!(matches!(
        SQLCommand::new("insert into t (a) values (1);".to_string()),
        SQLCommand::Insert(_)
    ));
    assert!(matches!(
        SQLCommand::new("create table t (a INTEGER);".to_string()),
        SQLCommand::CreateTable(_)
    ));
    assert!(matches!(
        SQLCommand::new("drop table t;".to_string()),
        SQLCommand::DropTable(_)
    ));
    assert!(matches!(
        SQLCommand::new("list tables;".to_string()),
        SQLCommand::ListTables
    ));
    assert!(matches!(
        SQLCommand::new("whatever".to_string()),
        SQLCommand::Unknown(_)
    ));
}
