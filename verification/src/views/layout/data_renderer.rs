//! The data regions: when the bytes of a leaf are shown, and how.

use vstd::prelude::*;

verus! {

/// Renders the regions of a file.
pub struct DataRenderer;

/// The number of rows of a preview, roughly.
pub const DATA_PREVIEW_APPROX_ROW_COUNT: usize = 15;

/// Whether the bytes of a leaf are shown.
#[derive(Clone, Copy, Debug, PartialEq, Eq, Structural)]
pub enum PreviewState {
    /// Not shown.
    Hidden,
    /// Shown.
    Visible,
    /// Asked for, and not there yet.
    Pending,
}

impl Default for PreviewState {
    /// A preview starts hidden.
    fn default() -> (r: Self)
        ensures
            r == PreviewState::Hidden,
    {
        PreviewState::Hidden
    }
}

/// What is to be done with the bytes of a leaf after a step.
#[derive(Clone, Copy, Debug, PartialEq, Eq, Structural)]
pub enum PreviewAction {
    /// Show the bytes that the cell holds.
    Show,
    /// Send a request for the bytes to the region reader.
    Fetch,
    /// Neither.
    Idle,
}

/// The state after one step from `current`: `clicked` says whether the
/// button was pressed, `filled` whether the cell of the leaf holds bytes.
/// While the bytes are awaited the button is switched off.
pub open spec fn next_state(current: PreviewState, clicked: bool, filled: bool) -> PreviewState {
    match current {
        PreviewState::Hidden => if !clicked {
            PreviewState::Hidden
        } else if filled {
            PreviewState::Visible
        } else {
            PreviewState::Pending
        },
        PreviewState::Visible => if clicked {
            PreviewState::Hidden
        } else {
            PreviewState::Visible
        },
        PreviewState::Pending => if filled {
            PreviewState::Visible
        } else {
            PreviewState::Pending
        },
    }
}

/// A step that never happens: from awaited to hidden, or from shown to
/// awaited.
pub open spec fn invalid_step(current: PreviewState, next: PreviewState) -> bool {
    (current is Pending && next is Hidden) || (current is Visible && next is Pending)
}

/// What a step from `current` to `next` asks for.
pub open spec fn action_of(current: PreviewState, next: PreviewState) -> PreviewAction {
    if next is Visible {
        PreviewAction::Show
    } else if current is Hidden && next is Pending {
        PreviewAction::Fetch
    } else {
        PreviewAction::Idle
    }
}

/// No step of the preview is an invalid one, and a request is sent only on
/// the step from hidden to awaited, which is taken only while the cell is
/// empty.
pub proof fn lemma_steps_valid(current: PreviewState, clicked: bool, filled: bool)
    ensures
        !invalid_step(current, next_state(current, clicked, filled)),
        action_of(current, next_state(current, clicked, filled)) == PreviewAction::Fetch ==> current
            is Hidden && clicked && !filled,
        action_of(current, next_state(current, clicked, filled)) == PreviewAction::Show
            ==> filled || current is Visible,
{
}

/// The name of a boundary order: of 0, 1 and 2, and of no other number.
pub open spec fn boundary_order_name(order: int) -> Option<Seq<char>> {
    if order == 0 {
        Some("UNORDERED"@)
    } else if order == 1 {
        Some("ASCENDING"@)
    } else if order == 2 {
        Some("DESCENDING"@)
    } else {
        None
    }
}

/// The number of bytes that a preview shows.
pub open spec fn preview_length(length: int, byte_count_per_row: int) -> int {
    let most = byte_count_per_row * DATA_PREVIEW_APPROX_ROW_COUNT;
    if most < length {
        most
    } else {
        length
    }
}

/// The lower-case hexadecimal digit of a number below sixteen.
pub open spec fn hex_digit(n: int) -> char {
    if n == 0 {
        '0'
    } else if n == 1 {
        '1'
    } else if n == 2 {
        '2'
    } else if n == 3 {
        '3'
    } else if n == 4 {
        '4'
    } else if n == 5 {
        '5'
    } else if n == 6 {
        '6'
    } else if n == 7 {
        '7'
    } else if n == 8 {
        '8'
    } else if n == 9 {
        '9'
    } else if n == 10 {
        'a'
    } else if n == 11 {
        'b'
    } else if n == 12 {
        'c'
    } else if n == 13 {
        'd'
    } else if n == 14 {
        'e'
    } else {
        'f'
    }
}

/// The bytes as text: two lower-case hexadecimal digits for each, the high
/// one first.
pub open spec fn hex_text(bytes: Seq<u8>) -> Seq<char>
    decreases bytes.len(),
{
    if bytes.len() == 0 {
        Seq::empty()
    } else {
        hex_text(bytes.drop_last()).push(hex_digit(bytes.last() as int / 16)).push(
            hex_digit(bytes.last() as int % 16),
        )
    }
}

/// The digit of a number below sixteen, as text.
fn digit(n: u8) -> (r: &'static str)
    requires
        n < 16,
    ensures
        r@ == seq![hex_digit(n as int)],
{
    proof {
        reveal_strlit("0");
        reveal_strlit("1");
        reveal_strlit("2");
        reveal_strlit("3");
        reveal_strlit("4");
        reveal_strlit("5");
        reveal_strlit("6");
        reveal_strlit("7");
        reveal_strlit("8");
        reveal_strlit("9");
        reveal_strlit("a");
        reveal_strlit("b");
        reveal_strlit("c");
        reveal_strlit("d");
        reveal_strlit("e");
        reveal_strlit("f");
    }
    let r = if n == 0 {
        "0"
    } else if n == 1 {
        "1"
    } else if n == 2 {
        "2"
    } else if n == 3 {
        "3"
    } else if n == 4 {
        "4"
    } else if n == 5 {
        "5"
    } else if n == 6 {
        "6"
    } else if n == 7 {
        "7"
    } else if n == 8 {
        "8"
    } else if n == 9 {
        "9"
    } else if n == 10 {
        "a"
    } else if n == 11 {
        "b"
    } else if n == 12 {
        "c"
    } else if n == 13 {
        "d"
    } else if n == 14 {
        "e"
    } else {
        "f"
    };
    assert(r@ =~= seq![hex_digit(n as int)]);
    r
}

impl DataRenderer {
    /// The state of a preview after one step.
    pub fn step(current: PreviewState, clicked: bool, filled: bool) -> (next: PreviewState)
        ensures
            next == next_state(current, clicked, filled),
    {
        match current {
            PreviewState::Hidden => {
                if !clicked {
                    PreviewState::Hidden
                } else if filled {
                    PreviewState::Visible
                } else {
                    PreviewState::Pending
                }
            },
            PreviewState::Visible => {
                if clicked {
                    PreviewState::Hidden
                } else {
                    PreviewState::Visible
                }
            },
            PreviewState::Pending => {
                if filled {
                    PreviewState::Visible
                } else {
                    PreviewState::Pending
                }
            },
        }
    }

    /// What a step from `current` to `next` asks for. The two steps that
    /// never happen are left out.
    pub fn action(current: PreviewState, next: PreviewState) -> (r: PreviewAction)
        requires
            !invalid_step(current, next),
        ensures
            r == action_of(current, next),
    {
        match (current, next) {
            (_, PreviewState::Visible) => PreviewAction::Show,
            (PreviewState::Hidden, PreviewState::Pending) => PreviewAction::Fetch,
            _ => PreviewAction::Idle,
        }
    }

    /// One step of a preview: the next state and what it asks for.
    pub fn advance(current: PreviewState, clicked: bool, filled: bool) -> (r: (
        PreviewState,
        PreviewAction,
    ))
        ensures
            r.0 == next_state(current, clicked, filled),
            r.1 == action_of(current, r.0),
            !invalid_step(current, r.0),
    {
        let next = DataRenderer::step(current, clicked, filled);
        (next, DataRenderer::action(current, next))
    }

    /// The name of the boundary order of a column index, if the number is
    /// one of the three orders.
    pub fn boundary_order_label(order: i32) -> (r: Option<&'static str>)
        ensures
            r is Some == boundary_order_name(order as int) is Some,
            r is Some ==> r->0@ == boundary_order_name(order as int)->0,
    {
        match order {
            0 => Some("UNORDERED"),
            1 => Some("ASCENDING"),
            2 => Some("DESCENDING"),
            _ => None,
        }
    }

    /// The text of a preview of `bytes` in rows of `byte_count_per_row`
    /// bytes, and the number of bytes left out of it: the preview shows the
    /// first bytes, as many as fill its rows.
    pub fn preview(bytes: &[u8], byte_count_per_row: usize) -> (r: (String, usize))
        requires
            byte_count_per_row * DATA_PREVIEW_APPROX_ROW_COUNT <= usize::MAX,
        ensures
            r.0@ == hex_text(
                bytes@.subrange(0, preview_length(bytes@.len() as int, byte_count_per_row as int)),
            ),
            r.1 == bytes@.len() - preview_length(bytes@.len() as int, byte_count_per_row as int),
    {
        let bytes_to_take: usize = byte_count_per_row * DATA_PREVIEW_APPROX_ROW_COUNT;
        let shown: usize = if bytes_to_take < bytes.len() {
            bytes_to_take
        } else {
            bytes.len()
        };
        let mut text = String::new();
        let mut k: usize = 0;
        assert(bytes@.subrange(0, 0) =~= Seq::<u8>::empty());
        while k < shown
            invariant
                0 <= k <= shown <= bytes@.len(),
                text@ == hex_text(bytes@.subrange(0, k as int)),
            decreases shown - k,
        {
            let b = bytes[k];
            proof {
                let upto = bytes@.subrange(0, k + 1);
                assert(upto.drop_last() =~= bytes@.subrange(0, k as int));
                assert(upto.last() == b);
                assert(hex_text(upto) == hex_text(upto.drop_last()).push(
                    hex_digit(b as int / 16),
                ).push(hex_digit(b as int % 16)));
                assert(seq![hex_digit(b as int / 16)] + seq![hex_digit(b as int % 16)]
                    =~= Seq::<char>::empty().push(hex_digit(b as int / 16)).push(
                    hex_digit(b as int % 16),
                ));
            }
            let ghost before = text@;
            text.append(digit(b / 16));
            text.append(digit(b % 16));
            assert(text@ =~= before.push(hex_digit(b as int / 16)).push(hex_digit(b as int % 16)));
            k = k + 1;
        }
        (text, bytes.len() - shown)
    }
}

} // verus!
