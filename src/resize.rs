//! Resizing a glyph's rows to a new size.
use vstd::prelude::*;

use crate::text::{chars_of, push_all, push_range, string_from, string_of_str};
use crate::types::{strings_view, Size};

verus! {

/// The character that fills new pixels.
pub const FILL: char = '.';

pub open spec fn fill(n: nat) -> Seq<char> {
    Seq::new(n, |i: int| FILL)
}

/// A row brought from `old_w` to `new_w`: padded with the fill character
/// when the width grows, cut when it shrinks, kept when it stays.
pub open spec fn resized_row(row: Seq<char>, old_w: nat, new_w: nat) -> Seq<char> {
    if new_w == old_w {
        row
    } else if new_w > old_w {
        if row.len() < new_w {
            row + fill((new_w - row.len()) as nat)
        } else {
            row
        }
    } else if row.len() <= new_w {
        row
    } else {
        row.subrange(0, new_w as int)
    }
}

/// The rows brought to the new height: filled rows added at the bottom, or
/// rows cut from the bottom.
pub open spec fn rows_to_height(rows: Seq<Seq<char>>, new: Size) -> Seq<Seq<char>> {
    if new.height > rows.len() {
        rows + Seq::new((new.height - rows.len()) as nat, |i: int| fill(new.width as nat))
    } else {
        rows.subrange(0, new.height as int)
    }
}

pub open spec fn resize_spec(rows: Seq<Seq<char>>, old: Size, new: Size) -> Seq<Seq<char>> {
    rows_to_height(rows, new).map_values(
        |r: Seq<char>| resized_row(r, old.width as nat, new.width as nat),
    )
}

fn fill_string(n: usize) -> (r: Vec<char>)
    ensures
        r@ == fill(n as nat),
{
    let mut v: Vec<char> = Vec::new();
    while v.len() < n
        invariant
            v@.len() <= n,
            v@ == fill(v@.len()),
        decreases n - v@.len(),
    {
        v.push(FILL);
        proof {
            assert(v@ =~= fill(v@.len()));
        }
    }
    v
}

fn resize_row(row: &String, old_w: u32, new_w: u32) -> (r: String)
    ensures
        r@ == resized_row(row@, old_w as nat, new_w as nat),
{
    let cs = chars_of(row.as_str());
    let n = cs.len();
    let w = new_w as usize;
    let mut v: Vec<char> = Vec::new();
    if new_w == old_w || (new_w > old_w && n >= w) || (new_w < old_w && n <= w) {
        push_all(&mut v, cs.as_slice());
    } else if new_w > old_w {
        push_all(&mut v, cs.as_slice());
        let pad = fill_string(w - n);
        push_all(&mut v, pad.as_slice());
    } else {
        push_range(&mut v, cs.as_slice(), 0, w);
    }
    proof {
        assert(v@ =~= resized_row(row@, old_w as nat, new_w as nat));
    }
    string_from(v.as_slice())
}

/// Brings a glyph's rows from `old_size` to `new_size`: first the height
/// (rows of `.` added, or rows cut, at the bottom), then, when the width
/// changes, each row (padded with `.`, or cut). Both sizes must be positive.
pub fn resize_bitmap(bitmap: Vec<String>, old_size: Size, new_size: Size) -> (r: Result<
    Vec<String>,
    String,
>)
    ensures
        new_size.width == 0 || new_size.height == 0 ==> (r matches Err(e) && e@
            == "New size dimensions must be greater than zero"@),
        new_size.width > 0 && new_size.height > 0 && (old_size.width == 0 || old_size.height == 0)
            ==> (r matches Err(e) && e@ == "Old size dimensions must be greater than zero"@),
        new_size.width > 0 && new_size.height > 0 && old_size.width > 0 && old_size.height > 0
            ==> (r matches Ok(rows) && strings_view(rows@) == resize_spec(
            strings_view(bitmap@),
            old_size,
            new_size,
        )),
{
    if new_size.width == 0 || new_size.height == 0 {
        return Err(string_of_str("New size dimensions must be greater than zero"));
    }
    if old_size.width == 0 || old_size.height == 0 {
        return Err(string_of_str("Old size dimensions must be greater than zero"));
    }
    let ghost tall = rows_to_height(strings_view(bitmap@), new_size);
    let h = new_size.height as usize;
    let mut result: Vec<String> = Vec::new();
    let mut i: usize = 0;
    while i < h
        invariant
            h == new_size.height,
            i <= h,
            tall == rows_to_height(strings_view(bitmap@), new_size),
            tall.len() == h,
            strings_view(result@) == tall.subrange(0, i as int).map_values(
                |r: Seq<char>| resized_row(r, old_size.width as nat, new_size.width as nat),
            ),
        decreases h - i,
    {
        let ghost before = result@;
        let ghost src: Seq<char> = if i < bitmap@.len() {
            bitmap@[i as int]@
        } else {
            fill(new_size.width as nat)
        };
        let row = if i < bitmap.len() {
            resize_row(&bitmap[i], old_size.width, new_size.width)
        } else {
            let f = fill_string(new_size.width as usize);
            let s = string_from(f.as_slice());
            resize_row(&s, old_size.width, new_size.width)
        };
        assert(row@ == resized_row(src, old_size.width as nat, new_size.width as nat));
        result.push(row);
        proof {
            assert(strings_view(result@) =~= strings_view(before).push(row@));
            assert(tall[i as int] == if i < bitmap@.len() {
                bitmap@[i as int]@
            } else {
                fill(new_size.width as nat)
            });
            assert(strings_view(result@) =~= tall.subrange(0, i + 1).map_values(
                |r: Seq<char>| resized_row(r, old_size.width as nat, new_size.width as nat),
            ));
        }
        i = i + 1;
    }
    proof {
        assert(tall.subrange(0, h as int) =~= tall);
    }
    Ok(result)
}

} // verus!
