//! Plain value types of the pointer-input layer: digit identities and
//! devices, hover and drag states, and the small area-tracking state
//! machines that survive a redraw.  Geometry (hit rectangles, positions,
//! distances) lives outside this crate: it is floating-point arithmetic,
//! which has no place in verified code.

use vstd::prelude::*;

verus! {

/// The identity of one digit (one finger, one mouse, one controller ray).
#[derive(Clone, Copy, Debug, Default, PartialEq, Eq, Structural)]
pub struct DigitId(pub u64);

/// A handle to a drawn region, compared by identity only.
#[derive(Clone, Copy, Debug, PartialEq, Eq, Structural)]
pub enum Area {
    Empty,
    Instance(u64),
}

impl Area {
    pub fn area_eq(&self, other: &Area) -> (r: bool)
        ensures
            r == (*self == *other),
    {
        match (self, other) {
            (Area::Empty, Area::Empty) => true,
            (Area::Instance(a), Area::Instance(b)) => a == b,
            _ => false,
        }
    }
}

/// The modifier keys held during an input event.
#[derive(Clone, Copy, Debug, Default, PartialEq, Eq, Structural)]
pub struct KeyModifiers {
    pub shift: bool,
    pub control: bool,
    pub alt: bool,
    pub logo: bool,
}

/// The device a digit belongs to.
#[derive(Clone, Copy, Debug, PartialEq, Eq, Structural)]
pub enum DigitDevice {
    Mouse(usize),
    Touch(u64),
    XR(usize),
}

impl DigitDevice {
    pub fn is_touch(&self) -> (r: bool)
        ensures
            r == (self is Touch),
    {
        match self {
            DigitDevice::Touch(_) => true,
            _ => false,
        }
    }

    pub fn is_mouse(&self) -> (r: bool)
        ensures
            r == (self is Mouse),
    {
        match self {
            DigitDevice::Mouse(_) => true,
            _ => false,
        }
    }

    pub fn is_xr(&self) -> (r: bool)
        ensures
            r == (self is XR),
    {
        match self {
            DigitDevice::XR(_) => true,
            _ => false,
        }
    }

    /// Mice and controller rays hover; touches do not.
    pub fn has_hovers(&self) -> (r: bool)
        ensures
            r == (self is Mouse || self is XR),
    {
        self.is_mouse() || self.is_xr()
    }

    pub fn mouse_button(&self) -> (r: Option<usize>)
        ensures
            r == (match *self {
                DigitDevice::Mouse(b) => Some(b),
                _ => None::<usize>,
            }),
    {
        match self {
            DigitDevice::Mouse(b) => Some(*b),
            _ => None,
        }
    }

    pub fn touch_uid(&self) -> (r: Option<u64>)
        ensures
            r == (match *self {
                DigitDevice::Touch(u) => Some(u),
                _ => None::<u64>,
            }),
    {
        match self {
            DigitDevice::Touch(u) => Some(*u),
            _ => None,
        }
    }

    pub fn xr_input(&self) -> (r: Option<usize>)
        ensures
            r == (match *self {
                DigitDevice::XR(i) => Some(i),
                _ => None::<usize>,
            }),
    {
        match self {
            DigitDevice::XR(i) => Some(*i),
            _ => None,
        }
    }
}

/// A digit with its slot among the currently active digits.
#[derive(Clone, Copy, Debug, PartialEq, Eq, Structural)]
pub struct DigitInfo {
    pub id: DigitId,
    pub index: usize,
    pub count: usize,
    pub device: DigitDevice,
}

/// Where a hover stands in its lifecycle.
#[derive(Clone, Copy, Debug, PartialEq, Eq, Structural)]
pub enum HoverState {
    In,
    Over,
    Out,
}

impl Default for HoverState {
    fn default() -> (r: HoverState)
        ensures
            r == HoverState::Over,
    {
        HoverState::Over
    }
}

/// Where a drag stands in its lifecycle.
#[derive(Clone, Copy, Debug, PartialEq, Eq, Structural)]
pub enum DragState {
    In,
    Over,
    Out,
}

/// What a drop would do, negotiated during the drag.
#[derive(Clone, Copy, Debug, PartialEq, Eq, Structural)]
pub enum DragAction {
    NoAction,
    Copy,
    Link,
    Move,
}

/// The payload of a drag: the file locations being dragged.
#[derive(Debug, PartialEq)]
pub struct DraggedItem {
    pub file_urls: Vec<String>,
}

/// The hover bookkeeping of one digit: the area hovered in the frame being
/// built and the one hovered in the frame shown.
#[derive(Clone, Copy, Debug, PartialEq, Eq, Structural)]
pub struct CxDigitHover {
    pub digit_id: DigitId,
    pub new_area: Area,
    pub area: Area,
}

/// The drag-area bookkeeping that survives a redraw.
#[derive(Clone, Copy, Debug, PartialEq, Eq, Structural)]
pub struct CxFingerDrag {
    pub drag_area: Area,
    pub next_drag_area: Area,
}

impl CxFingerDrag {
    pub fn new() -> (r: CxFingerDrag)
        ensures
            r.drag_area == Area::Empty,
            r.next_drag_area == Area::Empty,
    {
        CxFingerDrag { drag_area: Area::Empty, next_drag_area: Area::Empty }
    }

    /// Ends a frame: the area collected this frame becomes the current
    /// drag area, and collection starts over.
    pub fn cycle_drag(&mut self)
        ensures
            final(self).drag_area == old(self).next_drag_area,
            final(self).next_drag_area == Area::Empty,
    {
        self.drag_area = self.next_drag_area;
        self.next_drag_area = Area::Empty;
    }

    /// Follows a redraw that moved a region to a new handle.
    pub fn update_area(&mut self, old_area: Area, new_area: Area)
        ensures
            final(self).drag_area == (if old(self).drag_area == old_area {
                new_area
            } else {
                old(self).drag_area
            }),
            final(self).next_drag_area == old(self).next_drag_area,
    {
        if self.drag_area.area_eq(&old_area) {
            self.drag_area = new_area;
        }
    }
}


/// One active digit and the area that captured it.  A digit's press
/// positions are floating-point geometry and live outside this crate.
#[derive(Clone, Copy, Debug, PartialEq, Eq, Structural)]
pub struct CxDigit {
    pub digit_id: DigitId,
    pub captured: Area,
}

/// The first digit slot carrying an identity.
pub open spec fn spec_digit_index(digits: Seq<CxDigit>, id: DigitId) -> Option<int>
    decreases digits.len(),
{
    if digits.len() == 0 {
        None
    } else if digits[0].digit_id == id {
        Some(0)
    } else {
        match spec_digit_index(digits.drop_first(), id) {
            Some(i) => Some(i + 1),
            None => None,
        }
    }
}

/// The first hover slot carrying an identity.
pub open spec fn spec_hover_index(hovers: Seq<CxDigitHover>, id: DigitId) -> Option<int>
    decreases hovers.len(),
{
    if hovers.len() == 0 {
        None
    } else if hovers[0].digit_id == id {
        Some(0)
    } else {
        match spec_hover_index(hovers.drop_first(), id) {
            Some(i) => Some(i + 1),
            None => None,
        }
    }
}

proof fn lemma_digit_index_at(digits: Seq<CxDigit>, id: DigitId, w: int)
    requires
        0 <= w < digits.len(),
        digits[w].digit_id == id,
        forall|w2: int| 0 <= w2 < w ==> (#[trigger] digits[w2]).digit_id != id,
    ensures
        spec_digit_index(digits, id) == Some(w),
    decreases w,
{
    if w > 0 {
        assert forall|w2: int| 0 <= w2 < w - 1 implies (
        #[trigger] digits.drop_first()[w2]).digit_id != id by {
            assert(digits.drop_first()[w2] == digits[w2 + 1]);
        }
        assert(digits.drop_first()[w - 1] == digits[w]);
        lemma_digit_index_at(digits.drop_first(), id, w - 1);
    }
}

proof fn lemma_digit_index_none(digits: Seq<CxDigit>, id: DigitId)
    requires
        forall|w2: int| 0 <= w2 < digits.len() ==> (#[trigger] digits[w2]).digit_id != id,
    ensures
        spec_digit_index(digits, id) is None,
    decreases digits.len(),
{
    if digits.len() > 0 {
        assert forall|w2: int|
            0 <= w2 < digits.drop_first().len() implies (
        #[trigger] digits.drop_first()[w2]).digit_id != id by {
            assert(digits.drop_first()[w2] == digits[w2 + 1]);
        }
        lemma_digit_index_none(digits.drop_first(), id);
    }
}

proof fn lemma_hover_index_at(hovers: Seq<CxDigitHover>, id: DigitId, w: int)
    requires
        0 <= w < hovers.len(),
        hovers[w].digit_id == id,
        forall|w2: int| 0 <= w2 < w ==> (#[trigger] hovers[w2]).digit_id != id,
    ensures
        spec_hover_index(hovers, id) == Some(w),
    decreases w,
{
    if w > 0 {
        assert forall|w2: int| 0 <= w2 < w - 1 implies (
        #[trigger] hovers.drop_first()[w2]).digit_id != id by {
            assert(hovers.drop_first()[w2] == hovers[w2 + 1]);
        }
        assert(hovers.drop_first()[w - 1] == hovers[w]);
        lemma_hover_index_at(hovers.drop_first(), id, w - 1);
    }
}

proof fn lemma_hover_index_none(hovers: Seq<CxDigitHover>, id: DigitId)
    requires
        forall|w2: int| 0 <= w2 < hovers.len() ==> (#[trigger] hovers[w2]).digit_id != id,
    ensures
        spec_hover_index(hovers, id) is None,
    decreases hovers.len(),
{
    if hovers.len() > 0 {
        assert forall|w2: int|
            0 <= w2 < hovers.drop_first().len() implies (
        #[trigger] hovers.drop_first()[w2]).digit_id != id by {
            assert(hovers.drop_first()[w2] == hovers[w2 + 1]);
        }
        lemma_hover_index_none(hovers.drop_first(), id);
    }
}

/// The digit, capture and hover bookkeeping of pointer-event routing.
/// The geometric decisions (whether a position fell inside a region) are
/// made outside and arrive here only as the areas they produced.
pub struct CxFingers {
    pub capture_count: usize,
    pub digits: Vec<CxDigit>,
    pub hovers: Vec<CxDigitHover>,
}

impl CxFingers {
    pub fn new() -> (r: CxFingers)
        ensures
            r.capture_count == 0,
            r.digits@.len() == 0,
            r.hovers@.len() == 0,
    {
        CxFingers { capture_count: 0, digits: Vec::new(), hovers: Vec::new() }
    }

    fn digit_position(&self, digit_id: DigitId) -> (r: Option<usize>)
        ensures
            r matches Some(i) ==> spec_digit_index(self.digits@, digit_id) == Some(i as int) && i
                < self.digits@.len(),
            r is None ==> spec_digit_index(self.digits@, digit_id) is None,
    {
        let n = self.digits.len();
        let mut w: usize = 0;
        while w < n
            invariant
                n == self.digits@.len(),
                w <= n,
                forall|w2: int| 0 <= w2 < w ==> (#[trigger] self.digits@[w2]).digit_id != digit_id,
            decreases n - w,
        {
            if self.digits[w].digit_id.0 == digit_id.0 {
                proof {
                    lemma_digit_index_at(self.digits@, digit_id, w as int);
                }
                return Some(w);
            }
            w = w + 1;
        }
        proof {
            lemma_digit_index_none(self.digits@, digit_id);
        }
        None
    }

    fn hover_position(&self, digit_id: DigitId) -> (r: Option<usize>)
        ensures
            r matches Some(i) ==> spec_hover_index(self.hovers@, digit_id) == Some(i as int) && i
                < self.hovers@.len(),
            r is None ==> spec_hover_index(self.hovers@, digit_id) is None,
    {
        let n = self.hovers.len();
        let mut w: usize = 0;
        while w < n
            invariant
                n == self.hovers@.len(),
                w <= n,
                forall|w2: int| 0 <= w2 < w ==> (#[trigger] self.hovers@[w2]).digit_id != digit_id,
            decreases n - w,
        {
            if self.hovers[w].digit_id.0 == digit_id.0 {
                proof {
                    lemma_hover_index_at(self.hovers@, digit_id, w as int);
                }
                return Some(w);
            }
            w = w + 1;
        }
        proof {
            lemma_hover_index_none(self.hovers@, digit_id);
        }
        None
    }

    /// Registers a pressed digit with nothing captured yet; a second
    /// registration of the same identity is ignored.
    pub fn alloc_digit(&mut self, digit_id: DigitId)
        requires
            old(self).digits@.len() < usize::MAX,
        ensures
            final(self).capture_count == old(self).capture_count,
            final(self).hovers == old(self).hovers,
            spec_digit_index(old(self).digits@, digit_id) is Some ==> final(self).digits == old(self).digits,
            spec_digit_index(old(self).digits@, digit_id) is None ==> final(self).digits@ == old(self).digits@.push(CxDigit { digit_id, captured: Area::Empty }),
    {
        match self.digit_position(digit_id) {
            Some(_) => {},
            None => {
                self.digits.push(CxDigit { digit_id, captured: Area::Empty });
            },
        }
    }

    /// Forgets a lifted digit, giving back its capture slot if any digit
    /// held one.
    pub fn free_digit(&mut self, digit_id: DigitId)
        ensures
            final(self).hovers == old(self).hovers,
            spec_digit_index(old(self).digits@, digit_id) is None ==> *final(self) == *old(self),
            spec_digit_index(old(self).digits@, digit_id) matches Some(i) ==> {
                &&& final(self).digits@ == old(self).digits@.remove(i)
                &&& final(self).capture_count == (if old(self).capture_count > 0 {
                    (old(self).capture_count - 1) as usize
                } else {
                    0
                })
            },
    {
        match self.digit_position(digit_id) {
            Some(i) => {
                if self.capture_count > 0 {
                    self.capture_count = self.capture_count - 1;
                }
                let _ = self.digits.remove(i);
            },
            None => {},
        }
    }

    /// The slot of a digit; slot 0 when the digit is unknown.
    pub fn get_digit_index(&self, digit_id: DigitId) -> (r: usize)
        ensures
            r == (match spec_digit_index(self.digits@, digit_id) {
                Some(i) => i,
                None => 0int,
            }),
    {
        match self.digit_position(digit_id) {
            Some(i) => i,
            None => 0,
        }
    }

    pub fn get_digit_count(&self) -> (r: usize)
        ensures
            r == self.digits@.len(),
    {
        self.digits.len()
    }

    pub fn get_digit(&self, digit_id: DigitId) -> (r: Option<CxDigit>)
        ensures
            r == (match spec_digit_index(self.digits@, digit_id) {
                Some(i) => Some(self.digits@[i]),
                None => None::<CxDigit>,
            }),
    {
        match self.digit_position(digit_id) {
            Some(i) => Some(self.digits[i]),
            None => None,
        }
    }

    pub fn is_digit_allocated(&self, digit_id: DigitId) -> (r: bool)
        ensures
            r == (spec_digit_index(self.digits@, digit_id) is Some),
    {
        match self.digit_position(digit_id) {
            Some(_) => true,
            None => false,
        }
    }

    /// The area that captured a digit; the empty area for an unknown one.
    pub fn get_captured_area(&self, digit_id: DigitId) -> (r: Area)
        ensures
            r == (match spec_digit_index(self.digits@, digit_id) {
                Some(i) => self.digits@[i].captured,
                None => Area::Empty,
            }),
    {
        match self.digit_position(digit_id) {
            Some(i) => self.digits[i].captured,
            None => Area::Empty,
        }
    }

    /// The first digit an area has captured, when any capture is live.
    pub fn get_captured_area_digit(&self, area: Area) -> (r: Option<DigitId>)
        ensures
            self.capture_count == 0 ==> r is None,
            self.capture_count > 0 ==> r == (match spec_digit_by_area(self.digits@, area) {
                Some(i) => Some(self.digits@[i].digit_id),
                None => None::<DigitId>,
            }),
    {
        if self.capture_count == 0 {
            return None;
        }
        let n = self.digits.len();
        let mut w: usize = 0;
        while w < n
            invariant
                n == self.digits@.len(),
                w <= n,
                self.capture_count != 0,
                forall|w2: int| 0 <= w2 < w ==> (#[trigger] self.digits@[w2]).captured != area,
            decreases n - w,
        {
            if self.digits[w].captured.area_eq(&area) {
                proof {
                    lemma_digit_by_area_at(self.digits@, area, w as int);
                }
                return Some(self.digits[w].digit_id);
            }
            w = w + 1;
        }
        proof {
            lemma_digit_by_area_none(self.digits@, area);
        }
        None
    }

    /// Captures a digit on an area; fails for an unknown digit.
    pub fn capture_digit(&mut self, digit_id: DigitId, area: Area) -> (r: bool)
        requires
            old(self).capture_count < usize::MAX,
        ensures
            final(self).hovers == old(self).hovers,
            spec_digit_index(old(self).digits@, digit_id) is None ==> r == false && *final(self)
                == *old(self),
            spec_digit_index(old(self).digits@, digit_id) matches Some(i) ==> r == true && final(self).capture_count == old(self).capture_count + 1 && final(self).digits@ == old(self).digits@.update(i, CxDigit { digit_id: old(self).digits@[i].digit_id, captured: area }),
    {
        match self.digit_position(digit_id) {
            Some(i) => {
                self.capture_count = self.capture_count + 1;
                let d = self.digits[i];
                self.digits.set(i, CxDigit { digit_id: d.digit_id, captured: area });
                true
            },
            None => false,
        }
    }

    /// Releases a digit's capture.  Releasing with no live capture is a
    /// programmer error, so a found digit demands a positive count.
    pub fn release_digit(&mut self, digit_id: DigitId)
        requires
            spec_digit_index(old(self).digits@, digit_id) is Some ==> old(self).capture_count > 0,
        ensures
            final(self).hovers == old(self).hovers,
            spec_digit_index(old(self).digits@, digit_id) is None ==> *final(self) == *old(self),
            spec_digit_index(old(self).digits@, digit_id) matches Some(i) ==> final(self).capture_count == old(self).capture_count - 1 && final(self).digits@ == old(self).digits@.update(
                i,
                CxDigit { digit_id: old(self).digits@[i].digit_id, captured: Area::Empty },
            ),
    {
        match self.digit_position(digit_id) {
            Some(i) => {
                self.capture_count = self.capture_count - 1;
                let d = self.digits[i];
                self.digits.set(i, CxDigit { digit_id: d.digit_id, captured: Area::Empty });
            },
            None => {},
        }
    }

    /// Follows a redraw that moved a region: every hover pointing at the
    /// old handle follows it, and, when a capture is live, the first
    /// capturing digit does too.
    pub fn update_area(&mut self, old_area: Area, new_area: Area)
        ensures
            final(self).capture_count == old(self).capture_count,
            final(self).hovers@.len() == old(self).hovers@.len(),
            forall|w: int|
                0 <= w < old(self).hovers@.len() ==> #[trigger] final(self).hovers@[w] == (if old(self).hovers@[w].area == old_area {
                    CxDigitHover {
                        digit_id: old(self).hovers@[w].digit_id,
                        new_area: old(self).hovers@[w].new_area,
                        area: new_area,
                    }
                } else {
                    old(self).hovers@[w]
                }),
            old(self).capture_count == 0 ==> final(self).digits == old(self).digits,
            old(self).capture_count != 0 ==> final(self).digits@ == (match spec_digit_by_area(
                old(self).digits@,
                old_area,
            ) {
                Some(i) => old(self).digits@.update(
                    i,
                    CxDigit { digit_id: old(self).digits@[i].digit_id, captured: new_area },
                ),
                None => old(self).digits@,
            }),
    {
        let nh = self.hovers.len();
        let mut w: usize = 0;
        while w < nh
            invariant
                nh == self.hovers@.len(),
                w <= nh,
                self.capture_count == old(self).capture_count,
                self.digits == old(self).digits,
                self.hovers@.len() == old(self).hovers@.len(),
                forall|w2: int|
                    0 <= w2 < w ==> #[trigger] self.hovers@[w2] == (if old(self).hovers@[w2].area == old_area {
                        CxDigitHover {
                            digit_id: old(self).hovers@[w2].digit_id,
                            new_area: old(self).hovers@[w2].new_area,
                            area: new_area,
                        }
                    } else {
                        old(self).hovers@[w2]
                    }),
                forall|w2: int|
                    w <= w2 < nh ==> #[trigger] self.hovers@[w2] == old(self).hovers@[w2],
            decreases nh - w,
        {
            let h = self.hovers[w];
            if h.area.area_eq(&old_area) {
                self.hovers.set(
                    w,
                    CxDigitHover { digit_id: h.digit_id, new_area: h.new_area, area: new_area },
                );
            }
            w = w + 1;
        }
        if self.capture_count != 0 {
            let nd = self.digits.len();
            let mut d: usize = 0;
            while d < nd
                invariant
                    nd == self.digits@.len(),
                    d <= nd,
                    self.digits == old(self).digits,
                    self.capture_count == old(self).capture_count,
                    old(self).capture_count != 0,
                    self.hovers@.len() == old(self).hovers@.len(),
                    forall|w2: int|
                        0 <= w2 < old(self).hovers@.len() ==> #[trigger] self.hovers@[w2] == (if
                        old(self).hovers@[w2].area == old_area {
                            CxDigitHover {
                                digit_id: old(self).hovers@[w2].digit_id,
                                new_area: old(self).hovers@[w2].new_area,
                                area: new_area,
                            }
                        } else {
                            old(self).hovers@[w2]
                        }),
                    forall|d2: int|
                        0 <= d2 < d ==> (#[trigger] self.digits@[d2]).captured != old_area,
                decreases nd - d,
            {
                let dg = self.digits[d];
                if dg.captured.area_eq(&old_area) {
                    proof {
                        lemma_digit_by_area_at(self.digits@, old_area, d as int);
                    }
                    self.digits.set(
                        d,
                        CxDigit { digit_id: dg.digit_id, captured: new_area },
                    );
                    return ;
                }
                d = d + 1;
            }
            proof {
                lemma_digit_by_area_none(self.digits@, old_area);
            }
        }
    }

    /// Records the area a digit hovers in the frame being built.
    pub fn new_hover_area(&mut self, digit_id: DigitId, new_area: Area)
        requires
            old(self).hovers@.len() < usize::MAX,
        ensures
            final(self).capture_count == old(self).capture_count,
            final(self).digits == old(self).digits,
            spec_hover_index(old(self).hovers@, digit_id) matches Some(i) ==> final(self).hovers@ == old(self).hovers@.update(
                i,
                CxDigitHover { digit_id: old(self).hovers@[i].digit_id, new_area, area: old(self).hovers@[i].area },
            ),
            spec_hover_index(old(self).hovers@, digit_id) is None ==> final(self).hovers@ == old(self).hovers@.push(CxDigitHover { digit_id, new_area, area: Area::Empty }),
    {
        match self.hover_position(digit_id) {
            Some(i) => {
                let h = self.hovers[i];
                self.hovers.set(
                    i,
                    CxDigitHover { digit_id: h.digit_id, new_area, area: h.area },
                );
            },
            None => {
                self.hovers.push(CxDigitHover { digit_id, new_area, area: Area::Empty });
            },
        }
    }

    /// The area a digit hovered in the frame shown.
    pub fn get_hover_area(&self, digit_id: DigitId) -> (r: Area)
        ensures
            r == (match spec_hover_index(self.hovers@, digit_id) {
                Some(i) => self.hovers@[i].area,
                None => Area::Empty,
            }),
    {
        match self.hover_position(digit_id) {
            Some(i) => self.hovers[i].area,
            None => Area::Empty,
        }
    }

    /// Ends a frame for one digit's hover: the area collected this frame
    /// becomes the shown one, and collection starts over.
    pub fn cycle_hover_area(&mut self, digit_id: DigitId)
        ensures
            final(self).capture_count == old(self).capture_count,
            final(self).digits == old(self).digits,
            spec_hover_index(old(self).hovers@, digit_id) is None ==> *final(self) == *old(self),
            spec_hover_index(old(self).hovers@, digit_id) matches Some(i) ==> final(self).hovers@ == old(self).hovers@.update(
                i,
                CxDigitHover { digit_id: old(self).hovers@[i].digit_id, new_area: Area::Empty, area: old(self).hovers@[i].new_area },
            ),
    {
        match self.hover_position(digit_id) {
            Some(i) => {
                let h = self.hovers[i];
                self.hovers.set(
                    i,
                    CxDigitHover { digit_id: h.digit_id, new_area: Area::Empty, area: h.new_area },
                );
            },
            None => {},
        }
    }
}

/// The first digit slot an area has captured.
pub open spec fn spec_digit_by_area(digits: Seq<CxDigit>, area: Area) -> Option<int>
    decreases digits.len(),
{
    if digits.len() == 0 {
        None
    } else if digits[0].captured == area {
        Some(0)
    } else {
        match spec_digit_by_area(digits.drop_first(), area) {
            Some(i) => Some(i + 1),
            None => None,
        }
    }
}

proof fn lemma_digit_by_area_at(digits: Seq<CxDigit>, area: Area, w: int)
    requires
        0 <= w < digits.len(),
        digits[w].captured == area,
        forall|w2: int| 0 <= w2 < w ==> (#[trigger] digits[w2]).captured != area,
    ensures
        spec_digit_by_area(digits, area) == Some(w),
    decreases w,
{
    if w > 0 {
        assert forall|w2: int| 0 <= w2 < w - 1 implies (
        #[trigger] digits.drop_first()[w2]).captured != area by {
            assert(digits.drop_first()[w2] == digits[w2 + 1]);
        }
        assert(digits.drop_first()[w - 1] == digits[w]);
        lemma_digit_by_area_at(digits.drop_first(), area, w - 1);
    }
}

proof fn lemma_digit_by_area_none(digits: Seq<CxDigit>, area: Area)
    requires
        forall|w2: int| 0 <= w2 < digits.len() ==> (#[trigger] digits[w2]).captured != area,
    ensures
        spec_digit_by_area(digits, area) is None,
    decreases digits.len(),
{
    if digits.len() > 0 {
        assert forall|w2: int|
            0 <= w2 < digits.drop_first().len() implies (
        #[trigger] digits.drop_first()[w2]).captured != area by {
            assert(digits.drop_first()[w2] == digits[w2 + 1]);
        }
        lemma_digit_by_area_none(digits.drop_first(), area);
    }
}

} // verus!
