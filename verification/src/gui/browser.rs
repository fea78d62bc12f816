//! Browsing a data directory: what it holds, logging in, and surfaces in PPM files.

use crate::gui::panes::{in_ranges, CoordRange};
use crate::outside::{regex_captures, regex_groups};
use crate::text::{begins_with, chars_of, ends_with, has_end, has_start, string_of, trim_chars, trimmed};
use vstd::prelude::*;
use vstd::string::*;

verus! {

/// The server of the tiles.
pub fn tile_server() -> (r: &'static str)
    ensures
        r@ == "https://vesuvius.virtual-void.net"@,
{
    "https://vesuvius.virtual-void.net"
}

/// What a data directory is browsed as.
#[derive(Clone, Copy, PartialEq, Eq, Structural)]
pub enum Mode {
    /// Tiles that come from the server.
    Blocks,
    /// Files with cells of the volume.
    Cells,
    /// Files with layers of the volume.
    Layers,
}

/// A file with a cell.
pub open spec fn names_cell(name: Seq<char>) -> bool {
    begins_with(name, "cell_yxz_"@) && ends_with(name, ".tif"@)
}

/// A file with a layer, in whose name five digits stand before the ending.
pub open spec fn names_layer(name: Seq<char>) -> bool {
    regex_groups(r"(\d{5})\.tif"@, name) is Some
}

/// Tells whether a file holds a cell.
pub fn is_cell_file(name: &str) -> (r: bool)
    ensures
        r == names_cell(name@),
{
    has_start(name, "cell_yxz_") && has_end(name, ".tif")
}

/// Tells whether a file holds a layer.
pub fn is_layer_file(name: &str) -> (r: bool)
    ensures
        r == names_layer(name@),
{
    regex_captures(r"(\d{5})\.tif", name).is_some()
}

/// Some name is that of a cell.
pub open spec fn some_cell(names: Seq<String>) -> bool {
    exists|i: int| 0 <= i < names.len() && names_cell((#[trigger] names[i])@)
}

/// Some name is that of a layer.
pub open spec fn some_layer(names: Seq<String>) -> bool {
    exists|i: int| 0 <= i < names.len() && names_layer((#[trigger] names[i])@)
}

/// Tells what a directory with these files is browsed as. Cells come before layers.
pub fn mode_of(names: &[String]) -> (r: Mode)
    ensures
        r == (if some_cell(names@) {
            Mode::Cells
        } else if some_layer(names@) {
            Mode::Layers
        } else {
            Mode::Blocks
        }),
{
    let mut layers = false;
    let mut i: usize = 0;
    while i < names.len()
        invariant
            i <= names@.len(),
            forall|k: int| 0 <= k < i ==> !names_cell((#[trigger] names@[k])@),
            layers == (exists|k: int| 0 <= k < i && names_layer((#[trigger] names@[k])@)),
        decreases names@.len() - i,
    {
        if is_cell_file(names[i].as_str()) {
            assert(names_cell(names@[i as int]@));
            return Mode::Cells;
        }
        if is_layer_file(names[i].as_str()) {
            layers = true;
            assert(names_layer(names@[i as int]@));
        }
        i += 1;
    }
    if layers {
        Mode::Layers
    } else {
        Mode::Blocks
    }
}

/// How many coarser resolutions are painted under the one that is shown.
pub fn extra_resolutions(mode: Mode) -> (r: u32)
    ensures
        r == (if mode == Mode::Blocks {
            1u32
        } else {
            0
        }),
{
    match mode {
        Mode::Blocks => 1,
        Mode::Cells => 0,
        Mode::Layers => 0,
    }
}

/// Tiles are shown only to those who are known to the server; files are shown to everyone.
pub fn may_browse(mode: Mode, authorized: bool) -> (r: bool)
    ensures
        r == (mode != Mode::Blocks || authorized),
{
    mode != Mode::Blocks || authorized
}

/// The password in a file, without white space around it.
pub fn password_of(content: &str) -> (r: String)
    ensures
        r@ == trimmed(content@),
{
    let chars = chars_of(content);
    string_of(&trim_chars(&chars))
}

/// What was typed into the login window.
pub struct LoginForm {
    pub user: String,
    pub password: String,
    pub last_login_failed: bool,
}

/// What the login window does.
#[derive(Clone, Copy, PartialEq, Eq, Structural)]
pub enum LoginAction {
    Stay,
    FocusPassword,
    TryLogin,
}

fn is_empty(text: &String) -> (r: bool)
    ensures
        r == (text@.len() == 0),
{
    let chars = chars_of(text.as_str());
    chars.len() == 0
}

impl LoginForm {
    pub fn new() -> (r: LoginForm)
        ensures
            r.user@ == ""@,
            r.password@ == ""@,
            !r.last_login_failed,
    {
        LoginForm { user: "".to_string(), password: "".to_string(), last_login_failed: false }
    }

    /// Enter was pressed in the field of the name.
    pub fn enter_in_user(&self) -> (r: LoginAction)
        ensures
            r == (if self.password@.len() == 0 {
                LoginAction::FocusPassword
            } else {
                LoginAction::TryLogin
            }),
    {
        if is_empty(&self.password) {
            LoginAction::FocusPassword
        } else {
            LoginAction::TryLogin
        }
    }

    /// Enter was pressed in the field of the password.
    pub fn enter_in_password(&self) -> (r: LoginAction)
        ensures
            r == (if self.user@.len() > 0 && self.password@.len() > 0 {
                LoginAction::TryLogin
            } else {
                LoginAction::Stay
            }),
    {
        if !is_empty(&self.user) && !is_empty(&self.password) {
            LoginAction::TryLogin
        } else {
            LoginAction::Stay
        }
    }

    /// The field of the name is where typing goes as long as nothing was typed.
    pub fn focuses_user(&self) -> (r: bool)
        ensures
            r == (self.user@.len() == 0 && self.password@.len() == 0),
    {
        is_empty(&self.user) && is_empty(&self.password)
    }

    /// What is sent to the server, and kept if the server knows it.
    pub fn credentials(&self) -> (r: String)
        ensures
            r@ == self.user@ + ":"@ + self.password@,
    {
        let mut r = self.user.clone();
        r.append(":");
        r.append(self.password.as_str());
        r
    }

    /// The server answered. Tells whether browsing can begin.
    pub fn answered(&mut self, authorized: bool) -> (r: bool)
        ensures
            r == authorized,
            *final(self) == (LoginForm { last_login_failed: !authorized, ..*old(self) }),
    {
        self.last_login_failed = !authorized;
        authorized
    }
}

/// How far one can go from a surface in a PPM file.
pub const PPM_LAYERS: i32 = 30;

/// A surface of the given size is shown: the ranges, and the place, which goes to the middle if it
/// lies outside.
pub fn transform_volume(coord: [i32; 3], width: i32, height: i32) -> (r: ([i32; 3], [CoordRange; 3]))
    requires
        width >= 0,
        height >= 0,
    ensures
        r.1@ == seq![
            CoordRange { start: 0, end: width },
            CoordRange { start: 0, end: height },
            CoordRange { start: (-PPM_LAYERS) as i32, end: PPM_LAYERS },
        ],
        in_ranges(coord, r.1) ==> r.0 == coord,
        !in_ranges(coord, r.1) ==> r.0@ == seq![(width / 2) as i32, (height / 2) as i32, 0i32],
        in_ranges(r.0, r.1),
{
    let ranges = [
        CoordRange { start: 0, end: width },
        CoordRange { start: 0, end: height },
        CoordRange { start: -PPM_LAYERS, end: PPM_LAYERS },
    ];
    assert(ranges@ =~= seq![
        CoordRange { start: 0, end: width },
        CoordRange { start: 0, end: height },
        CoordRange { start: (-PPM_LAYERS) as i32, end: PPM_LAYERS },
    ]);
    if coord[0] < 0 || coord[0] > width || coord[1] < 0 || coord[1] > height || coord[2] < -PPM_LAYERS
        || coord[2] > PPM_LAYERS {
        let middle: [i32; 3] = [width / 2, height / 2, 0];
        assert(middle@ =~= seq![(width / 2) as i32, (height / 2) as i32, 0i32]);
        (middle, ranges)
    } else {
        (coord, ranges)
    }
}

/// A name that starts and ends as the names of cells do is that of a cell, whatever stands between; a
/// directory with one is one of cells, however many other files it has.
pub proof fn cells_are_told_by_their_names(name: Seq<char>, between: Seq<char>, names: Seq<String>, i: int)
    ensures
        names_cell("cell_yxz_"@ + between + ".tif"@),
        names_cell(name) ==> name.len() >= 9 && name.take(9) == "cell_yxz_"@ && name.skip(name.len() - 4)
            == ".tif"@,
        0 <= i < names.len() && names_cell(names[i]@) ==> some_cell(names),
        0 <= i < names.len() && names_layer(names[i]@) ==> some_layer(names),
{
    reveal_strlit("cell_yxz_");
    reveal_strlit(".tif");
    let all = "cell_yxz_"@ + between + ".tif"@;
    assert(all.subrange(0, 9) =~= "cell_yxz_"@);
    assert(all.subrange(all.len() - 4, all.len() as int) =~= ".tif"@);
    if names_cell(name) {
        assert(name.take(9) =~= name.subrange(0, 9));
        assert(name.skip(name.len() - 4) =~= name.subrange(name.len() - 4, name.len() as int));
    }
}

} // verus!
