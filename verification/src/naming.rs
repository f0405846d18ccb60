//! Deterministic names derived from a tile address: the on-disk cache
//! path — the dedup key for disk presence — and the per-source download
//! URL, including the row/column order each provider expects.

use crate::tile::TilePos;
use vstd::prelude::*;
use vstd::string::StringExecFns;

verus! {

/// The character of one decimal digit.
pub open spec fn digit_char(d: nat) -> char {
    if d == 0 {
        '0'
    } else if d == 1 {
        '1'
    } else if d == 2 {
        '2'
    } else if d == 3 {
        '3'
    } else if d == 4 {
        '4'
    } else if d == 5 {
        '5'
    } else if d == 6 {
        '6'
    } else if d == 7 {
        '7'
    } else if d == 8 {
        '8'
    } else {
        '9'
    }
}

/// The decimal digits of `n`, most significant first, without leading
/// zeros (a single zero for 0).
pub open spec fn dec_digits(n: nat) -> Seq<char>
    decreases n,
{
    if n < 10 {
        seq![digit_char(n)]
    } else {
        dec_digits(n / 10).push(digit_char(n % 10))
    }
}

/// `n` written in decimal.
pub fn u32_to_decimal(n: u32) -> (s: String)
    ensures
        s@ == dec_digits(n as nat),
    decreases n,
{
    let d: u32 = n % 10;
    let c: &str = if d == 0 {
        "0"
    } else if d == 1 {
        "1"
    } else if d == 2 {
        "2"
    } else if d == 3 {
        "3"
    } else if d == 4 {
        "4"
    } else if d == 5 {
        "5"
    } else if d == 6 {
        "6"
    } else if d == 7 {
        "7"
    } else if d == 8 {
        "8"
    } else {
        "9"
    };
    proof {
        reveal_strlit("0");
        reveal_strlit("1");
        reveal_strlit("2");
        reveal_strlit("3");
        reveal_strlit("4");
        reveal_strlit("5");
        reveal_strlit("6");
        reveal_strlit("7");
        reveal_strlit("8");
        reveal_strlit("9");
        assert(c@ =~= seq![digit_char((n % 10) as nat)]);
    }
    if n < 10 {
        c.to_owned()
    } else {
        let mut s = u32_to_decimal(n / 10);
        s.append(c);
        proof {
            assert(s@ =~= dec_digits(n as nat));
        }
        s
    }
}

/// The on-disk cache path of a tile: one file per (source, zoom, column,
/// row), named by its source family and coordinates, written once and
/// probed on every miss.
pub open spec fn spec_file_path(t: TilePos) -> Seq<char> {
    (if t.m == 0 {
        "Tiles/OSMTile_"@
    } else {
        "Tiles/ESRITile_"@
    }) + dec_digits(t.z as nat) + "_"@ + dec_digits(t.x as nat) + "_"@ + dec_digits(t.y as nat)
        + ".png"@
}

/// The on-disk cache path of the tile.
pub fn get_file_path(t: &TilePos) -> (r: String)
    ensures
        r@ == spec_file_path(*t),
{
    let mut s: String = if t.m == 0 {
        String::from_str("Tiles/OSMTile_")
    } else {
        String::from_str("Tiles/ESRITile_")
    };
    let z = u32_to_decimal(t.z as u32);
    s.append(z.as_str());
    s.append("_");
    let x = u32_to_decimal(t.x);
    s.append(x.as_str());
    s.append("_");
    let y = u32_to_decimal(t.y);
    s.append(y.as_str());
    s.append(".png");
    proof {
        assert(s@ =~= spec_file_path(*t));
    }
    s
}

/// The download URL of a tile: source 0 follows the zoom/column/row.png
/// scheme, every other source the scheme whose path ends zoom/row/column
/// — row and column swapped, as that provider expects.
pub open spec fn spec_tile_url(t: TilePos) -> Seq<char> {
    if t.m == 0 {
        "https://tile.openstreetmap.org/"@ + dec_digits(t.z as nat) + "/"@ + dec_digits(
            t.x as nat,
        ) + "/"@ + dec_digits(t.y as nat) + ".png"@
    } else {
        "https://services.arcgisonline.com/ArcGIS/rest/services/World_Imagery/MapServer/tile/"@
            + dec_digits(t.z as nat) + "/"@ + dec_digits(t.y as nat) + "/"@ + dec_digits(
            t.x as nat,
        )
    }
}

/// The download URL of the tile on its imagery source.
pub fn tile_url(t: &TilePos) -> (r: String)
    ensures
        r@ == spec_tile_url(*t),
{
    let z = u32_to_decimal(t.z as u32);
    let x = u32_to_decimal(t.x);
    let y = u32_to_decimal(t.y);
    let mut s: String;
    if t.m == 0 {
        s = String::from_str("https://tile.openstreetmap.org/");
        s.append(z.as_str());
        s.append("/");
        s.append(x.as_str());
        s.append("/");
        s.append(y.as_str());
        s.append(".png");
    } else {
        s = String::from_str(
            "https://services.arcgisonline.com/ArcGIS/rest/services/World_Imagery/MapServer/tile/",
        );
        s.append(z.as_str());
        s.append("/");
        s.append(y.as_str());
        s.append("/");
        s.append(x.as_str());
    }
    proof {
        assert(s@ =~= spec_tile_url(*t));
    }
    s
}

} // verus!
