use zip2json::command_line::directory_checked;
use zip2json::command_line::parameter_check;
use zip2json::command_line::CommandLineParam;
use zip2json::command_line::ParameterRequest;

fn args(list: &[&str]) -> Vec<String> {
    list.iter().map(|s| s.to_string()).collect()
}

#[test]
fn no_argument_saves_to_the_current_directory() {
    assert_eq!(
        parameter_check(&args(&["zip2json"])),
        ParameterRequest::Settled(CommandLineParam::SavePathMode(".".to_string()))
    );
}

#[test]
fn help_option_asks_for_the_usage() {
    assert_eq!(parameter_check(&args(&["zip2json", "-h"])), ParameterRequest::Settled(CommandLineParam::UsageMode));
}

#[test]
fn path_option_asks_for_the_directory() {
    assert_eq!(
        parameter_check(&args(&["zip2json", "-path", "out/json"])),
        ParameterRequest::Directory("out/json".to_string())
    );
}

#[test]
fn anything_else_is_an_error() {
    let error = ParameterRequest::Settled(CommandLineParam::ParameterError);
    assert_eq!(parameter_check(&args(&[])), error);
    assert_eq!(parameter_check(&args(&["zip2json", "-x"])), error);
    assert_eq!(parameter_check(&args(&["zip2json", "-path"])), error);
    assert_eq!(parameter_check(&args(&["zip2json", "-h", "out"])), error);
    assert_eq!(parameter_check(&args(&["zip2json", "-PATH", "out"])), error);
    assert_eq!(parameter_check(&args(&["zip2json", "-path", "out", "more"])), error);
}

#[test]
fn directory_that_is_there_is_accepted() {
    assert_eq!(directory_checked("out".to_string(), true), CommandLineParam::SavePathMode("out".to_string()));
}

#[test]
fn directory_that_cannot_be_had_is_an_error() {
    assert_eq!(directory_checked("out".to_string(), false), CommandLineParam::ParameterError);
}
