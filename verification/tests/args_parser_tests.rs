use rusty_images::args_parser::{ArgsParsingError, CommandLineArgs};

fn args(list: &[&str]) -> Vec<String> {
    list.iter().map(|s| s.to_string()).collect()
}

#[test]
fn help_flag_short() {
    let r = CommandLineArgs::parse(args(&["prog", "-h"]));
    assert!(matches!(r, Err(ArgsParsingError::HelpRequested)));
}

#[test]
fn help_flag_long() {
    let r = CommandLineArgs::parse(args(&["prog", "--help"]));
    assert!(matches!(r, Err(ArgsParsingError::HelpRequested)));
}

#[test]
fn help_flag_wins_anywhere() {
    // A help flag after other arguments still short-circuits parsing, so no
    // image path is ever acted on.
    let r = CommandLineArgs::parse(args(&["prog", "img.png", "--help", "40"]));
    assert!(matches!(r, Err(ArgsParsingError::HelpRequested)));
}

#[test]
fn no_file_provided() {
    let r = CommandLineArgs::parse(args(&["prog"]));
    match r {
        Err(ArgsParsingError::NoFileProvided(msg)) => {
            assert_eq!(msg, "A path to an input image is required\n");
        },
        _ => panic!("expected NoFileProvided"),
    }
}

#[test]
fn defaults_when_dimensions_omitted() {
    let r = CommandLineArgs::parse(args(&["prog", "img.png"]));
    match r {
        Ok(c) => {
            assert_eq!(c.image_path, "img.png");
            assert_eq!(c.output_width, CommandLineArgs::DEFAULT_OUTPUT_SIZE);
            assert_eq!(c.output_height, CommandLineArgs::DEFAULT_OUTPUT_SIZE);
        },
        _ => panic!("expected Ok"),
    }
}

#[test]
fn explicit_width_default_height() {
    let r = CommandLineArgs::parse(args(&["prog", "img.png", "12"]));
    match r {
        Ok(c) => {
            assert_eq!(c.output_width, 12);
            assert_eq!(c.output_height, CommandLineArgs::DEFAULT_OUTPUT_SIZE);
        },
        _ => panic!("expected Ok"),
    }
}

#[test]
fn explicit_width_and_height() {
    let r = CommandLineArgs::parse(args(&["prog", "img.png", "12", "34"]));
    match r {
        Ok(c) => {
            assert_eq!(c.image_path, "img.png");
            assert_eq!(c.output_width, 12);
            assert_eq!(c.output_height, 34);
        },
        _ => panic!("expected Ok"),
    }
}

#[test]
fn unparseable_width() {
    let r = CommandLineArgs::parse(args(&["prog", "img.png", "abc"]));
    match r {
        Err(ArgsParsingError::CannotParseWidthOrHeight(msg)) => {
            assert_eq!(msg, "Unable to parse width 'abc'.\n");
        },
        _ => panic!("expected CannotParseWidthOrHeight"),
    }
}

#[test]
fn unparseable_height() {
    let r = CommandLineArgs::parse(args(&["prog", "img.png", "12", "-5"]));
    match r {
        Err(ArgsParsingError::CannotParseWidthOrHeight(msg)) => {
            assert_eq!(msg, "Unable to parse height '-5'.\n");
        },
        _ => panic!("expected CannotParseWidthOrHeight"),
    }
}

#[test]
fn empty_width_rejected() {
    let r = CommandLineArgs::parse(args(&["prog", "img.png", ""]));
    assert!(matches!(r, Err(ArgsParsingError::CannotParseWidthOrHeight(_))));
}

#[test]
fn plus_sign_accepted() {
    let r = CommandLineArgs::parse(args(&["prog", "img.png", "+123"]));
    match r {
        Ok(c) => assert_eq!(c.output_width, 123),
        _ => panic!("expected Ok"),
    }
}

#[test]
fn lone_plus_rejected() {
    let r = CommandLineArgs::parse(args(&["prog", "img.png", "+"]));
    assert!(matches!(r, Err(ArgsParsingError::CannotParseWidthOrHeight(_))));
}

#[test]
fn u32_max_accepted() {
    let r = CommandLineArgs::parse(args(&["prog", "img.png", "4294967295"]));
    match r {
        Ok(c) => assert_eq!(c.output_width, u32::MAX),
        _ => panic!("expected Ok"),
    }
}

#[test]
fn u32_overflow_rejected() {
    let r = CommandLineArgs::parse(args(&["prog", "img.png", "4294967296"]));
    assert!(matches!(r, Err(ArgsParsingError::CannotParseWidthOrHeight(_))));
}

#[test]
fn long_run_of_leading_zeros_accepted() {
    let r = CommandLineArgs::parse(args(&["prog", "img.png", "0000000000000000001"]));
    match r {
        Ok(c) => assert_eq!(c.output_width, 1),
        _ => panic!("expected Ok"),
    }
}

#[test]
fn zero_dimension_parses_but_is_no_render_size() {
    // Parsing itself accepts 0; rejecting it as a render size is the
    // caller's validation step, since the renderer requires positive output
    // dimensions.
    let r = CommandLineArgs::parse(args(&["prog", "img.png", "0", "0"]));
    match r {
        Ok(c) => {
            assert_eq!(c.output_width, 0);
            assert_eq!(c.output_height, 0);
        },
        _ => panic!("expected Ok"),
    }
}
