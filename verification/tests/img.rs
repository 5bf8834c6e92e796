use shogi_usi_parser::FromUsi;
use kanshi::img::board_image;

#[test]
fn image_path_is_digest_of_sfen() {
    let sfen = "lnsgkgsnl/1r5b1/ppppppppp/9/9/9/PPPPPPPPP/1B5R1/LNSGKGSNL b - 1";
    let img = board_image(sfen).expect("valid position");
    let expected = format!("img/{}.png", blake3::hash(sfen.as_bytes()).to_hex());
    assert_eq!(expected, img.path);
    assert_eq!(4 + 64 + 4, img.path.len());
}

#[test]
fn invalid_sfen_gives_nothing() {
    assert!(board_image("not a position").is_none());
}

#[test]
fn image_holds_the_position_of_the_sfen() {
    let sfen = "lnsgkgsnl/1r5b1/ppppppppp/9/9/2P6/PP1PPPPPP/1B5R1/LNSGKGSNL w - 2";
    let img = board_image(sfen).expect("valid position");
    let expected = shogi_img::shogi_core::PartialPosition::from_usi(&format!("sfen {}", sfen)).unwrap();
    assert!(img.position == expected);
}
