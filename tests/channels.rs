use selim::score::Channels;

fn chnls(track: usize, midi_channels: Vec<u8>) -> Result<Channels, String> {
    Ok(Channels { track, midi_channels })
}

fn err(msg: &str) -> Result<Channels, String> {
    Err(msg.to_string())
}

#[test]
fn channels_from_str_cases() {
    let cases: Vec<(&str, Result<Channels, String>)> = vec![
        ("", err("Invalid MIDI channel number ''")),
        ("1:", err("Invalid MIDI channel number ''")),
        (":1", err("Invalid track number ''")),
        ("16", chnls(0, vec![15])),
        ("2,3", chnls(0, vec![1, 2])),
        ("1:2,3", chnls(0, vec![1, 2])),
        (
            "16:1,2,3,4,5,6,7,8,9,10,11,12,13,14,15,16",
            chnls(15, vec![0, 1, 2, 3, 4, 5, 6, 7, 8, 9, 10, 11, 12, 13, 14, 15]),
        ),
        ("0:1", err("Invalid track number '0'")),
        ("foo:1", err("Invalid track number 'foo'")),
        ("1:foo", err("Invalid MIDI channel number 'foo'")),
        ("-1:1", err("Invalid track number '-1'")),
        ("1:-1", err("Invalid MIDI channel number '-1'")),
        (" 7 : 1 , 15 ", chnls(6, vec![0, 14])),
        ("1:17", err("Invalid MIDI channel number '17'")),
    ];
    for (spec, expect) in cases {
        assert_eq!(Channels::from_str(spec), expect, "{spec:?}");
    }
}

#[test]
fn channels_track_error_comes_first() {
    assert_eq!(Channels::from_str("x:99"), err("Invalid track number 'x'"));
    assert_eq!(Channels::from_str("2:3,0,99"), err("Invalid MIDI channel number '0'"));
    assert_eq!(Channels::from_str("+2:+3"), chnls(1, vec![2]));
}

#[test]
fn channels_parse_through_from_str_trait() {
    let parsed: Channels = "3:4".parse().unwrap();
    assert_eq!(parsed, Channels { track: 2, midi_channels: vec![3] });
}
