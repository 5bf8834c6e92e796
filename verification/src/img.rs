//! Where the picture of a position goes, and the position it shows.

use vstd::prelude::*;
use vstd::string::*;
use shogi_img::shogi_core::PartialPosition;
use shogi_usi_parser::FromUsi;

verus! {

#[verifier::external_type_specification]
#[verifier::external_body]
pub struct ExPartialPosition(PartialPosition);

/// Whether `usi` is a position in USI notation that shogi_usi_parser reads.
pub uninterp spec fn usi_position_valid(usi: Seq<char>) -> bool;

/// The position that shogi_usi_parser reads from `usi`, where it reads one.
pub uninterp spec fn usi_position(usi: Seq<char>) -> PartialPosition;

/// The BLAKE3 digest of `data`, in lowercase hexadecimal.
pub uninterp spec fn blake3_hex(data: Seq<u8>) -> Seq<char>;

/// `PartialPosition::from_usi` of shogi_usi_parser: the position written in `usi`, where
/// it is valid USI. Which texts are valid, and the position read, are left to the parser
/// (`usi_position_valid`, `usi_position`).
#[verifier::external_body]
fn parse_position(usi: &str) -> (p: Option<PartialPosition>)
    ensures
        p is Some <==> usi_position_valid(usi@),
        p matches Some(q) ==> q == usi_position(usi@),
{
    PartialPosition::from_usi(usi).ok()
}

/// `blake3::hash` of `data`, written out with `Hash::to_hex`: its 64 lowercase
/// hexadecimal digits, as blake3's source shows them.
#[verifier::external_body]
fn digest_hex(data: &[u8]) -> (s: String)
    ensures
        s@ == blake3_hex(data@),
        s@.len() == 64,
        forall|i: int| 0 <= i < 64 ==> ('0' <= #[trigger] s@[i] <= '9' || 'a' <= s@[i] <= 'f'),
{
    blake3::hash(data).to_hex().as_str().to_string()
}

/// The picture to draw for a position: the file it goes to and the position.
pub struct BoardImage {
    pub path: String,
    pub position: PartialPosition,
}

/// The file of the picture of the position `sfen`: "img/", the BLAKE3 digest of the SFEN
/// text in hexadecimal, ".png".
pub open spec fn image_path(sfen: Seq<char>) -> Seq<char> {
    "img/"@ + blake3_hex(vstd::utf8::encode_utf8(sfen)) + ".png"@
}

/// The picture to draw for the LiShogi position `sfen`: the position read from
/// "sfen <sfen>" and its file, or `None` where the USI parser reads no position there.
pub fn board_image(sfen: &str) -> (r: Option<BoardImage>)
    ensures
        r is Some <==> usi_position_valid("sfen "@ + sfen@),
        r matches Some(img) ==> img.path@ == image_path(sfen@),
        r matches Some(img) ==> img.position == usi_position("sfen "@ + sfen@),
{
    let mut usi = String::from_str("sfen ");
    usi.append(sfen);
    match parse_position(usi.as_str()) {
        None => None,
        Some(position) => {
            let hex = digest_hex(sfen.as_bytes());
            let mut path = String::from_str("img/");
            path.append(hex.as_str());
            path.append(".png");
            Some(BoardImage { path, position })
        },
    }
}

} // verus!
