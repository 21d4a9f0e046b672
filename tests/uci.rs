use remote_uci::text::{read, read_until, Stop};
use remote_uci::uci::{ProtocolError, UciIn, UciOption, UciOptionName, UciOut};

#[test]
fn test_read() {
    assert_eq!(read(""), (None, "".to_string()));
    assert_eq!(read(" abc\t def g"), (Some("abc".to_string()), "\t def g".to_string()));
    assert_eq!(read("  end"), (Some("end".to_string()), "".to_string()));
}

#[test]
fn test_read_until() {
    assert_eq!(
        read_until("abc def value foo", Stop::Value),
        (Some("abc def".to_string()), " value foo".to_string())
    );
    assert_eq!(
        read_until("abc def valuefoo", Stop::Value),
        (Some("abc def valuefoo".to_string()), "".to_string())
    );
    assert_eq!(
        read_until("value abc", Stop::Value),
        (Some("value abc".to_string()), "".to_string())
    );
}

#[test]
fn test_setoption() -> Result<(), ProtocolError> {
    assert_eq!(
        UciIn::from_line("setoption name Skill Level value 10")?,
        Some(UciIn::Setoption {
            name: UciOptionName("skill level".to_owned()),
            value: Some("10".to_owned())
        })
    );

    assert_eq!(
        UciIn::from_line("setoption name Clear Hash")?,
        Some(UciIn::Setoption {
            name: UciOptionName("clEAR haSH".to_owned()),
            value: None
        })
    );

    Ok(())
}

#[test]
fn test_position() -> Result<(), ProtocolError> {
    assert!(matches!(
        UciIn::from_line(
            "position fen rn1q1rk1/pbp1bppp/1p2pn2/8/2pP4/2N1PN2/PPB1QPPP/R1B2RK1 b - - 5 9"
        )?,
        Some(UciIn::Position { fen: Some(_), .. })
    ));
    Ok(())
}

#[test]
fn test_option() -> Result<(), ProtocolError> {
    assert_eq!(
        UciOut::from_line("option name U type combo var uroe co default ce\t\t")?,
        Some(UciOut::Option {
            name: UciOptionName("U".to_owned()),
            option: UciOption::Combo {
                default: "ce".to_owned(),
                var: vec!["uroe co".to_owned()],
            }
        })
    );

    Ok(())
}
