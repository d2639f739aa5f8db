//! The command line of the hub.

use km_hub::bt::TransportKind;
use km_hub::cli::{parse_args, ArgError, Invocation, HELP};

fn args(list: &[&str]) -> Vec<String> {
    list.iter().map(|s| s.to_string()).collect()
}

#[test]
fn the_hub_runs_by_default() {
    assert_eq!(
        parse_args(&[]),
        Ok(Invocation::Run { config: "config.toml".to_string(), transport: TransportKind::Log })
    );
    assert_eq!(
        parse_args(&args(&["--transport", "le", "--config", "a.toml"])),
        Ok(Invocation::Run { config: "a.toml".to_string(), transport: TransportKind::Le })
    );
    assert_eq!(
        parse_args(&args(&["--transport", "l2cap", "--transport", "log"])),
        Ok(Invocation::Run { config: "config.toml".to_string(), transport: TransportKind::Log })
    );
}

#[test]
fn macro_hands_on_the_rest() {
    assert_eq!(
        parse_args(&args(&["--config", "a.toml", "macro", "add", "--nonsense"])),
        Ok(Invocation::Macro(args(&["--config", "a.toml", "add", "--nonsense"])))
    );
    assert_eq!(
        parse_args(&args(&["macro"])),
        Ok(Invocation::Macro(args(&["--config", "config.toml"])))
    );
}

#[test]
fn help_and_errors() {
    assert_eq!(parse_args(&args(&["-h", "junk"])), Ok(Invocation::Help));
    assert_eq!(parse_args(&args(&["--help"])), Ok(Invocation::Help));
    assert_eq!(parse_args(&args(&["--config"])), Err(ArgError::ConfigNeedsPath));
    assert_eq!(parse_args(&args(&["--transport"])), Err(ArgError::BadTransport(None)));
    assert_eq!(
        parse_args(&args(&["--transport", "usb"])),
        Err(ArgError::BadTransport(Some("usb".to_string())))
    );
    assert_eq!(parse_args(&args(&["junk"])), Err(ArgError::Unknown("junk".to_string())));
    assert!(HELP.starts_with("usage: km-hub [--config <path>] [--transport log|l2cap|le]\n       km-hub macro"));
}
