use smelt::{Action, Cli, CliError};

fn cli(print: bool, rsync_to: Option<&str>) -> Cli {
    Cli {
        key: "publish_to".to_string(),
        value: "hello-world".to_string(),
        include_attachment: None,
        print,
        rsync_to: rsync_to.map(|d| d.to_string()),
        src: "notes".to_string(),
    }
}

#[test]
fn print_is_an_action() {
    assert_eq!(Action::from_cli(&cli(true, None)), Ok(Action::Print));
}

#[test]
fn a_destination_asks_for_a_mirror() {
    let settings = cli(false, Some("/mnt/site"));
    assert_eq!(
        Action::from_cli(&settings),
        Ok(Action::RsyncTo { src_dir: &"notes".to_string(), dst_dir: &"/mnt/site".to_string() })
    );
}

#[test]
fn print_goes_before_a_destination() {
    assert_eq!(Action::from_cli(&cli(true, Some("/mnt/site"))), Ok(Action::Print));
}

#[test]
fn without_an_action_there_is_an_error() {
    assert_eq!(Action::from_cli(&cli(false, None)), Err(CliError::NoAction));
}
