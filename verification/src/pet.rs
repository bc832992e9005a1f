//! The desktop pet: where it is parked, and when the mouse reaches it.
use vstd::prelude::*;

verus! {

/// How far the clickable part of the pet window lies inside its edges. The
/// drawing sits in the middle of the window and its badge reaches almost to the
/// edge; only the transparent corners are left out.
pub const INSET: i32 = 6;

/// Gap between the pet and the right edge of the monitor.
pub const RIGHT_GAP: i32 = 24;

/// Gap between the pet and the lower edge of the monitor, above the taskbar.
pub const LOWER_GAP: i32 = 96;

/// Width and height of the pet window where the system does not tell.
pub const PET_SIZE: u32 = 110;

/// How often the cursor is looked at (milliseconds).
pub const HIT_TEST_MS: u64 = 150;

/// A rectangle on the screen, in pixels.
#[derive(Debug, Clone, Copy, PartialEq, Eq, Structural)]
pub struct Area {
    pub x: i32,
    pub y: i32,
    pub width: u32,
    pub height: u32,
}

/// Whether all edges of a rectangle fit machine integers.
pub open spec fn area_fits(a: Area) -> bool {
    &&& a.width <= i32::MAX
    &&& a.height <= i32::MAX
    &&& a.x + a.width <= i32::MAX
    &&& a.y + a.height <= i32::MAX
    &&& a.x + INSET <= i32::MAX
    &&& a.y + INSET <= i32::MAX
    &&& a.x + a.width - INSET >= i32::MIN
    &&& a.y + a.height - INSET >= i32::MIN
}

/// Whether all edges of a rectangle fit machine integers.
pub fn fits(a: Area) -> (r: bool)
    ensures
        r == area_fits(a),
{
    let right: i64 = a.x as i64 + a.width as i64;
    let lower: i64 = a.y as i64 + a.height as i64;
    a.width <= 0x7fff_ffff && a.height <= 0x7fff_ffff && right <= i32::MAX as i64 && lower
        <= i32::MAX as i64 && a.x as i64 + INSET as i64 <= i32::MAX as i64 && a.y as i64
        + INSET as i64 <= i32::MAX as i64 && right - INSET as i64 >= i32::MIN as i64 && lower
        - INSET as i64 >= i32::MIN as i64
}

// ---- hit testing ----------------------------------------------------------

/// Whether a point lies on the clickable part of the pet window.
pub open spec fn on_pet(a: Area, x: int, y: int) -> bool {
    &&& a.x + INSET <= x < a.x + a.width - INSET
    &&& a.y + INSET <= y < a.y + a.height - INSET
}

/// Whether a point lies on the clickable part of the pet window.
pub fn hits(a: Area, x: i32, y: i32) -> (r: bool)
    requires
        area_fits(a),
    ensures
        r == on_pet(a, x as int, y as int),
{
    x >= a.x + INSET && x < a.x + a.width as i32 - INSET && y >= a.y + INSET && y < a.y
        + a.height as i32 - INSET
}

/// What one look at the cursor found.
#[derive(Debug, Clone, Copy)]
pub struct Look {
    /// the mouse button is down
    pub dragging: bool,
    /// where the pet window and the cursor are; none while the pet is hidden or
    /// its place is not known
    pub at: Option<(Area, i32, i32)>,
}

/// Whether clicks pass through the pet window, going by one look.
pub open spec fn passes(look: Look) -> bool {
    match look.at {
        Some((a, x, y)) => !on_pet(a, x as int, y as int),
        None => true,
    }
}

/// What one look at the cursor changes: the window lets clicks through except
/// over the pet itself, and it is touched only when that changes. While the
/// mouse button is down nothing changes, so a drag is never dropped halfway.
pub open spec fn after_look(through: Option<bool>, look: Look) -> (Option<bool>, Option<bool>) {
    if look.dragging || through == Some(passes(look)) {
        (through, None)
    } else {
        (Some(passes(look)), Some(passes(look)))
    }
}

/// Take one look at the cursor. The first part is what to remember; the second
/// is the new setting of the window, where it has to be set.
pub fn hit_test(through: Option<bool>, look: Look) -> (r: (Option<bool>, Option<bool>))
    requires
        look.at matches Some((a, _, _)) ==> area_fits(a),
    ensures
        r == after_look(through, look),
{
    if look.dragging {
        return (through, None);
    }
    let pass: bool = match look.at {
        Some((a, x, y)) => !hits(a, x, y),
        None => true,
    };
    match through {
        Some(t) => if t == pass {
            (through, None)
        } else {
            (Some(pass), Some(pass))
        },
        None => (Some(pass), Some(pass)),
    }
}

// ---- parking --------------------------------------------------------------

/// Where the pet is parked: in the lower right corner of a monitor, clear of
/// its edge and of the taskbar.
pub open spec fn parked(monitor: Area, width: u32, height: u32) -> (int, int) {
    (
        monitor.x + monitor.width - width - RIGHT_GAP,
        monitor.y + monitor.height - height - LOWER_GAP,
    )
}

/// Whether the place where the pet is parked fits machine integers.
pub open spec fn parking_fits(monitor: Area, width: u32, height: u32) -> bool {
    &&& monitor.width <= i32::MAX
    &&& monitor.height <= i32::MAX
    &&& width <= i32::MAX
    &&& height <= i32::MAX
    &&& monitor.x + monitor.width <= i32::MAX
    &&& monitor.y + monitor.height <= i32::MAX
    &&& parked(monitor, width, height).0 >= i32::MIN
    &&& parked(monitor, width, height).1 >= i32::MIN
}

/// Whether the place where the pet is parked fits machine integers.
pub fn can_park(monitor: Area, width: u32, height: u32) -> (r: bool)
    ensures
        r == parking_fits(monitor, width, height),
{
    let right: i64 = monitor.x as i64 + monitor.width as i64;
    let lower: i64 = monitor.y as i64 + monitor.height as i64;
    monitor.width <= 0x7fff_ffff && monitor.height <= 0x7fff_ffff && width <= 0x7fff_ffff && height
        <= 0x7fff_ffff && right <= i32::MAX as i64 && lower <= i32::MAX as i64 && right
        - width as i64 - RIGHT_GAP as i64 >= i32::MIN as i64 && lower - height as i64
        - LOWER_GAP as i64 >= i32::MIN as i64
}

/// Where the pet is parked; see `parked`.
pub fn park(monitor: Area, width: u32, height: u32) -> (r: (i32, i32))
    requires
        parking_fits(monitor, width, height),
    ensures
        r.0 == parked(monitor, width, height).0,
        r.1 == parked(monitor, width, height).1,
{
    (
        monitor.x + monitor.width as i32 - width as i32 - RIGHT_GAP,
        monitor.y + monitor.height as i32 - height as i32 - LOWER_GAP,
    )
}

// ---- laws -----------------------------------------------------------------

/// Looking again at the same place changes nothing.
pub proof fn law_same_look_changes_nothing(through: Option<bool>, look: Look)
    ensures
        after_look(after_look(through, look).0, look).1 is None,
{
}

/// A drag is never dropped: while the mouse button is down, the window stays as
/// it is.
pub proof fn law_drag_is_never_dropped(through: Option<bool>, look: Look)
    requires
        look.dragging,
    ensures
        after_look(through, look) == (through, None::<bool>),
{
}

/// The window always is as the last look without a drag said.
pub proof fn law_window_follows_the_cursor(through: Option<bool>, look: Look)
    requires
        !look.dragging,
    ensures
        after_look(through, look).0 == Some(passes(look)),
{
}

/// The transparent rim of the window, its corners included, lets clicks through.
pub proof fn law_rim_lets_clicks_through(a: Area, x: i32, y: i32, dragging: bool)
    requires
        x < a.x + INSET || x >= a.x + a.width - INSET || y < a.y + INSET || y >= a.y + a.height
            - INSET,
    ensures
        passes((Look { dragging, at: Some((a, x, y)) })),
{
}

/// On a monitor with room for it, the parked pet lies inside the monitor, with
/// its gaps kept.
pub proof fn law_parked_inside_the_monitor(monitor: Area, width: u32, height: u32)
    requires
        monitor.width >= width + RIGHT_GAP,
        monitor.height >= height + LOWER_GAP,
    ensures
        ({
            let (x, y) = parked(monitor, width, height);
            &&& monitor.x <= x
            &&& monitor.y <= y
            &&& x + width + RIGHT_GAP == monitor.x + monitor.width
            &&& y + height + LOWER_GAP == monitor.y + monitor.height
        }),
{
}

/// The pet can be clicked exactly where the cursor is at least 6 pixels away from
/// every edge of its window.
pub proof fn law_pet_is_clickable_inside_its_rim(a: Area, x: i32, y: i32, dragging: bool)
    ensures
        passes((Look { dragging, at: Some((a, x, y)) })) <==> {
            ||| x - a.x < 6
            ||| a.x + a.width - x <= 6
            ||| y - a.y < 6
            ||| a.y + a.height - y <= 6
        },
        passes((Look { dragging, at: None })),
{
}

/// The window is touched exactly where its setting has to change, and it is then
/// set to what is remembered.
pub proof fn law_window_is_touched_only_for_a_change(through: Option<bool>, look: Look)
    ensures
        ({
            let (kept, set) = after_look(through, look);
            &&& set is Some <==> kept != through
            &&& set is Some ==> set == kept
            &&& !look.dragging && look.at is None ==> kept == Some(true)
        }),
{
}

/// The pet is parked 24 pixels off the right edge of its monitor and 96 off the
/// lower one.
pub proof fn law_parking_gaps(monitor: Area, width: u32, height: u32)
    ensures
        ({
            let (x, y) = parked(monitor, width, height);
            &&& x + width + 24 == monitor.x + monitor.width
            &&& y + height + 96 == monitor.y + monitor.height
        }),
{
}

/// On any ordinary screen all of this fits.
pub proof fn law_ordinary_screens_fit(a: Area, width: u32, height: u32)
    requires
        -0x3000_0000 <= a.x <= 0x3000_0000,
        -0x3000_0000 <= a.y <= 0x3000_0000,
        a.width <= 0x3000_0000,
        a.height <= 0x3000_0000,
        width <= 0x3000_0000,
        height <= 0x3000_0000,
    ensures
        area_fits(a),
        parking_fits(a, width, height),
{
}

} // verus!
