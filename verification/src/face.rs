//! Where the pips of a card's face stand, in percent of the card's width and
//! height, and which of them are drawn upside down.
use vstd::prelude::*;

verus! {

/// One pip: across, down (both in percent), and whether it is turned over.
pub type Pip = (u8, u8, bool);

pub open spec fn spec_pip_positions(is_ace: bool, rank: u8) -> Seq<Pip> {
    if is_ace {
        seq![(50u8, 50u8, false)]
    } else if rank == 2 {
        seq![(50u8, 22u8, false), (50u8, 78u8, true)]
    } else if rank == 3 {
        seq![(50u8, 20u8, false), (50u8, 50u8, false), (50u8, 80u8, true)]
    } else if rank == 4 {
        seq![(32u8, 22u8, false), (68u8, 22u8, false), (32u8, 78u8, true), (68u8, 78u8, true)]
    } else if rank == 5 {
        seq![
            (32u8, 22u8, false),
            (68u8, 22u8, false),
            (50u8, 50u8, false),
            (32u8, 78u8, true),
            (68u8, 78u8, true),
        ]
    } else if rank == 6 {
        seq![
            (32u8, 22u8, false),
            (68u8, 22u8, false),
            (32u8, 50u8, false),
            (68u8, 50u8, false),
            (32u8, 78u8, true),
            (68u8, 78u8, true),
        ]
    } else if rank == 7 {
        seq![
            (32u8, 20u8, false),
            (68u8, 20u8, false),
            (50u8, 36u8, false),
            (32u8, 50u8, false),
            (68u8, 50u8, false),
            (32u8, 80u8, true),
            (68u8, 80u8, true),
        ]
    } else if rank == 8 {
        seq![
            (32u8, 18u8, false),
            (68u8, 18u8, false),
            (32u8, 40u8, false),
            (68u8, 40u8, false),
            (32u8, 60u8, true),
            (68u8, 60u8, true),
            (32u8, 82u8, true),
            (68u8, 82u8, true),
        ]
    } else if rank == 9 {
        seq![
            (32u8, 18u8, false),
            (68u8, 18u8, false),
            (32u8, 38u8, false),
            (68u8, 38u8, false),
            (50u8, 50u8, false),
            (32u8, 62u8, true),
            (68u8, 62u8, true),
            (32u8, 82u8, true),
            (68u8, 82u8, true),
        ]
    } else if rank == 10 {
        seq![
            (32u8, 16u8, false),
            (68u8, 16u8, false),
            (50u8, 28u8, false),
            (32u8, 38u8, false),
            (68u8, 38u8, false),
            (32u8, 62u8, true),
            (68u8, 62u8, true),
            (50u8, 72u8, true),
            (32u8, 84u8, true),
            (68u8, 84u8, true),
        ]
    } else {
        Seq::empty()
    }
}

/// The pips of an ace (one in the middle) or of a number card; none for a
/// face card.
pub fn pip_positions(is_ace: bool, rank: u8) -> (pips: Vec<Pip>)
    ensures
        pips@ == spec_pip_positions(is_ace, rank),
{
    if is_ace {
        return vec![(50, 50, false)];
    }
    match rank {
        2 => vec![(50, 22, false), (50, 78, true)],
        3 => vec![(50, 20, false), (50, 50, false), (50, 80, true)],
        4 => vec![(32, 22, false), (68, 22, false), (32, 78, true), (68, 78, true)],
        5 => vec![(32, 22, false), (68, 22, false), (50, 50, false), (32, 78, true), (68, 78, true)],
        6 => vec![
            (32, 22, false),
            (68, 22, false),
            (32, 50, false),
            (68, 50, false),
            (32, 78, true),
            (68, 78, true),
        ],
        7 => vec![
            (32, 20, false),
            (68, 20, false),
            (50, 36, false),
            (32, 50, false),
            (68, 50, false),
            (32, 80, true),
            (68, 80, true),
        ],
        8 => vec![
            (32, 18, false),
            (68, 18, false),
            (32, 40, false),
            (68, 40, false),
            (32, 60, true),
            (68, 60, true),
            (32, 82, true),
            (68, 82, true),
        ],
        9 => vec![
            (32, 18, false),
            (68, 18, false),
            (32, 38, false),
            (68, 38, false),
            (50, 50, false),
            (32, 62, true),
            (68, 62, true),
            (32, 82, true),
            (68, 82, true),
        ],
        10 => vec![
            (32, 16, false),
            (68, 16, false),
            (50, 28, false),
            (32, 38, false),
            (68, 38, false),
            (32, 62, true),
            (68, 62, true),
            (50, 72, true),
            (32, 84, true),
            (68, 84, true),
        ],
        _ => vec![],
    }
}

/// An ace shows one pip and a number card as many pips as its rank.
pub proof fn lemma_pip_count(is_ace: bool, rank: u8)
    requires
        is_ace || 2 <= rank <= 10,
    ensures
        spec_pip_positions(is_ace, rank).len() == if is_ace {
            1
        } else {
            rank as int
        },
{
}

/// A pip is turned over exactly when it stands below the middle of the
/// card, and every pip has its mirror image across the vertical middle.
pub proof fn lemma_pip_layout(is_ace: bool, rank: u8)
    ensures
        forall|k: int|
            0 <= k < spec_pip_positions(is_ace, rank).len() ==> {
                let p = #[trigger] spec_pip_positions(is_ace, rank)[k];
                &&& p.2 <==> p.1 > 50
                &&& exists|m: int|
                    0 <= m < spec_pip_positions(is_ace, rank).len() && spec_pip_positions(is_ace, rank)[m]
                        == (((100 - p.0) as u8, p.1, p.2))
            },
{
    let pips = spec_pip_positions(is_ace, rank);
    assert forall|k: int| 0 <= k < pips.len() implies {
        let p = #[trigger] pips[k];
        &&& p.2 <==> p.1 > 50
        &&& exists|m: int| 0 <= m < pips.len() && pips[m] == (((100 - p.0) as u8, p.1, p.2))
    } by {
        let p = pips[k];
        let m: int = if p.0 == 50 {
            k
        } else if p.0 == 32 {
            k + 1
        } else {
            k - 1
        };
        assert(0 <= m < pips.len() && pips[m] == (((100 - p.0) as u8, p.1, p.2)));
    }
}

} // verus!
