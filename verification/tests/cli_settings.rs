use mail_sink::cli::{parse_ports, Args};

#[test]
fn ports_are_separated_by_commas() {
    assert_eq!(parse_ports("2525"), Some(vec![2525]));
    assert_eq!(parse_ports("25,587,465"), Some(vec![25, 587, 465]));
    assert_eq!(parse_ports("0,65535,+80"), Some(vec![0, 65535, 80]));
    assert_eq!(parse_ports("25,25"), Some(vec![25, 25]));
}

#[test]
fn a_piece_that_is_no_port_spoils_the_list() {
    assert_eq!(parse_ports(""), None);
    assert_eq!(parse_ports("25,"), None);
    assert_eq!(parse_ports(",25"), None);
    assert_eq!(parse_ports("25, 587"), None);
    assert_eq!(parse_ports("65536"), None);
    assert_eq!(parse_ports("25,smtp"), None);
    assert_eq!(parse_ports("-25"), None);
    assert_eq!(parse_ports("25;587"), None);
}

#[test]
fn settings_have_the_documented_defaults() {
    let args = Args::default();
    assert!(!args.help);
    assert_eq!(args.smtp_port, "2525");
    assert_eq!(args.http_ports, 8080);
    assert_eq!(args.key, "prouteur");
    assert_eq!(args.lifetime, None);
    assert_eq!(parse_ports(&args.smtp_port), Some(vec![2525]));
}
