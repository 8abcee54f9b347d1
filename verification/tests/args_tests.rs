#![allow(non_snake_case)]

use memory_scanner::args::{ArgError, ParseArg};
use memory_scanner::config::{Action, Configuration, FilterOption, ScanStartFlag};

// INCORRECT COMMAND
#[test]
fn IncorrectOpt() {
    assert_eq!(
        Err(ArgError::OptionDoesntExist),
        ParseArg("search --Incorrect --dataType=u32,u64 -J=12 --help")
    );
}

#[test]
fn InsufficientParametersCommand() {
    assert_eq!(Err(ArgError::InsufficientParameters), ParseArg("search --dataType= "));
}

#[test]
fn IncorrectCommand() {
    assert_eq!(Err(ArgError::InvalidCommand), ParseArg("incorrect_command"));
}

// READ MEM
#[test]
fn ReadMemorySearchOnly() {
    assert_eq!(Ok(Configuration::new()), ParseArg("search"));
}

#[test]
fn ReadMemoryCommand() {
    let mut config: Configuration = Configuration::new();
    config.filters = vec![FilterOption::U32, FilterOption::U64];
    config.thread_count = 12;

    assert_eq!(Ok(config), ParseArg("search --dataType=u32,u64 -j=12"));
}

#[test]
fn ReadMemoryFilterSearchCommand() {
    let mut config: Configuration = Configuration::new();
    config.scan_start = ScanStartFlag::ReuseResults;
    config.filters = vec![FilterOption::U32, FilterOption::U64];
    config.thread_count = 12;

    assert_eq!(Ok(config), ParseArg("search --filterSearch --dataType=u32,u64 -j=12"));
}

#[test]
fn ReadMemoryFilterSearhValueCommand() {
    let mut config: Configuration = Configuration::new();
    config.value_to_search = b"10".to_vec();
    config.scan_start = ScanStartFlag::ReuseResults;
    config.filters = vec![FilterOption::U32, FilterOption::U64];
    config.thread_count = 12;

    assert_eq!(Ok(config), ParseArg("search --filterSearch --dataType=u32,u64 -j=12 --value=10"));
}

// WRITE MEM
#[test]
fn WriteMemoryCommand() {
    let mut config: Configuration = Configuration::new();
    config.action = Action::WriteMemory;
    config.value_to_search = b"10".to_vec();

    assert_eq!(Ok(config), ParseArg("write --value=10"));
}

#[test]
fn WriteMemoryFreezeCommand() {
    let mut config: Configuration = Configuration::new();
    config.action = Action::WriteMemory;
    config.value_to_search = b"10".to_vec();
    config.freeze = true;

    assert_eq!(Ok(config), ParseArg("write --freeze --value=10"));
}

#[test]
fn WriteMemoryFreezeSleepCommand() {
    let mut config: Configuration = Configuration::new();
    config.action = Action::WriteMemory;
    config.value_to_search = b"10".to_vec();
    config.freeze = true;
    config.sleep_time = 100;

    assert_eq!(Ok(config), ParseArg("write --freeze --sleep=100 --value=10"));
}

#[test]
fn WriteMemoryAddressCommand() {
    let mut config: Configuration = Configuration::new();
    config.action = Action::WriteMemory;
    config.value_to_search = b"10".to_vec();
    config.freeze = true;
    config.sleep_time = 100;
    config.address_selected = 1000;

    assert_eq!(Ok(config), ParseArg("write --freeze --sleep=100 --address=1000 --value=10"));
}

// DISPLAY
#[test]
fn DispalyCommand() {
    let mut config: Configuration = Configuration::new();
    config.action = Action::Display;

    assert_eq!(Ok(config), ParseArg("display"));
}

// EXIT
#[test]
fn ExitCommand() {
    let mut config: Configuration = Configuration::new();
    config.action = Action::Exit;

    assert_eq!(Ok(config), ParseArg("exit"));
}

// HELP
#[test]
fn HelpCommand() {
    let mut config: Configuration = Configuration::new();
    config.help = true;

    assert_eq!(Ok(config), ParseArg("search --help"));
}

#[test]
fn UnknownDataTypeIsDropped() {
    let mut config: Configuration = Configuration::new();
    config.filters = vec![FilterOption::U8, FilterOption::I64];

    assert_eq!(Ok(config), ParseArg("search --dataType=u8,nonsense,i64"));
}

#[test]
fn NonNumericJobsIsRejected() {
    assert_eq!(Err(ArgError::InsufficientParameters), ParseArg("search --jobs=many"));
}

#[test]
fn ZeroJobsIsRejected() {
    assert_eq!(Err(ArgError::InsufficientParameters), ParseArg("search -j=0"));
}

#[test]
fn NonOptionWordsAreSkipped() {
    assert_eq!(Ok(Configuration::new()), ParseArg("search stray words"));
}

#[test]
fn EmptyCommandIsInvalid() {
    assert_eq!(Err(ArgError::InvalidCommand), ParseArg(""));
}

#[test]
fn ValueStopsAtSecondEquals() {
    // Only what stands between the first `=` and the second is the value.
    let mut config: Configuration = Configuration::new();
    config.action = Action::WriteMemory;
    config.value_to_search = b"10".to_vec();

    assert_eq!(Ok(config), ParseArg("write --value=10=20"));
}
