//! Which board is shown: from the keyboards that were detected, the live layer stack, and
//! the section that is being edited.

use crate::glow::BoardTag;
use crate::glow::BoardTagView;
use crate::strings;
use crate::text;
use vstd::prelude::*;

verus! {

/// A board of a layer with the title.
pub open spec fn is_titled(b: BoardTagView, title: Seq<char>) -> bool {
    !b.is_base && b.title == title
}

/// Some layer has a board with the title.
pub open spec fn has_board(boards: Seq<BoardTagView>, title: Seq<char>) -> bool {
    exists|i: int| 0 <= i < boards.len() && is_titled(#[trigger] boards[i], title)
}

/// The title of the board for the layer stack, given by the titles of its layers: that of
/// the most recent layer which has a board; empty, for the base, where none has (a bare
/// modifier is a layer without a board).
pub open spec fn live_title(boards: Seq<BoardTagView>, titles: Seq<Seq<char>>) -> Seq<char>
    decreases titles.len(),
{
    if titles.len() == 0 {
        Seq::empty()
    } else if has_board(boards, titles.last()) {
        titles.last()
    } else {
        live_title(boards, titles.drop_last())
    }
}

/// The titles that the layers' boards go by.
pub open spec fn titles_of(stack: Seq<Seq<char>>) -> Seq<Seq<char>> {
    Seq::new(stack.len(), |i: int| strings::uppercase_text(stack[i]))
}

/// The title of the board to show. While editing it is frozen to the section that is
/// edited; the live stack decides otherwise.
pub open spec fn wanted_title(editing: bool, layer: Seq<char>, live: Seq<char>) -> Seq<char> {
    if !editing {
        live
    } else if layer.len() == 0 || layer == "main"@ {
        Seq::empty()
    } else {
        strings::uppercase_text(layer)
    }
}

/// The board answers to the title: the base to the empty one.
pub open spec fn answers(b: BoardTagView, title: Seq<char>) -> bool {
    if title.len() == 0 {
        b.is_base
    } else {
        b.title == title
    }
}

/// The first board that answers to the title.
pub open spec fn first_answer(boards: Seq<BoardTagView>, title: Seq<char>) -> Option<nat>
    decreases boards.len(),
{
    if boards.len() == 0 {
        None
    } else {
        match first_answer(boards.drop_last(), title) {
            Some(i) => Some(i),
            None => if answers(boards.last(), title) {
                Some((boards.len() - 1) as nat)
            } else {
                None
            },
        }
    }
}

/// The board that is shown for a title: the one that answers to it, else the base, else
/// the first. None where there are no boards.
pub open spec fn chosen_board(boards: Seq<BoardTagView>, title: Seq<char>) -> Option<nat> {
    match first_answer(boards, title) {
        Some(i) => Some(i),
        None => match first_answer(boards, Seq::empty()) {
            Some(i) => Some(i),
            None => if boards.len() > 0 {
                Some(0)
            } else {
                None
            },
        },
    }
}

fn has_title(boards: &Vec<BoardTag>, title: &str) -> (r: bool)
    ensures
        r == has_board(text::views(boards@), title@),
{
    let ghost all = text::views(boards@);
    let mut i: usize = 0;
    while i < boards.len()
        invariant
            i <= boards@.len(),
            all == text::views(boards@),
            forall|k: int| 0 <= k < i ==> !is_titled(#[trigger] all[k], title@),
        decreases boards.len() - i,
    {
        assert(all[i as int] == boards@[i as int]@);
        if !boards[i].is_base && strings::same(boards[i].title.as_str(), title) {
            assert(is_titled(all[i as int], title@));
            return true;
        }
        i = i + 1;
    }
    false
}

/// The title of the board for the layer stack, given by the titles of its layers.
pub fn topmost_title(boards: &Vec<BoardTag>, titles: &Vec<String>) -> (r: String)
    ensures
        r@ == live_title(text::views(boards@), text::texts(titles@)),
{
    let ghost all = text::texts(titles@);
    let ghost tags = text::views(boards@);
    let mut i: usize = titles.len();
    assert(all.subrange(0, i as int) =~= all);
    while i > 0
        invariant
            i <= titles@.len(),
            all == text::texts(titles@),
            tags == text::views(boards@),
            live_title(tags, all.subrange(0, i as int)) == live_title(tags, all),
        decreases i,
    {
        let ghost now = all.subrange(0, i as int);
        assert(now.drop_last() =~= all.subrange(0, i - 1));
        assert(now.last() == titles@[i - 1]@);
        if has_title(boards, titles[i - 1].as_str()) {
            return strings::copy(titles[i - 1].as_str());
        }
        i = i - 1;
    }
    String::new()
}

/// The titles that the layers' boards go by.
pub fn stack_titles(stack: &Vec<String>) -> (r: Vec<String>)
    ensures
        text::texts(r@) == titles_of(text::texts(stack@)),
{
    let ghost all = titles_of(text::texts(stack@));
    let mut r: Vec<String> = Vec::new();
    let mut i: usize = 0;
    while i < stack.len()
        invariant
            i <= stack@.len(),
            all == titles_of(text::texts(stack@)),
            text::texts(r@) == all.subrange(0, i as int),
        decreases stack.len() - i,
    {
        let ghost before = text::texts(r@);
        let t = strings::to_uppercase(stack[i].as_str());
        assert(t@ == all[i as int]);
        r.push(t);
        assert(text::texts(r@) =~= before.push(all[i as int]));
        assert(all.subrange(0, i + 1) =~= before.push(all[i as int]));
        i = i + 1;
    }
    assert(all.subrange(0, i as int) =~= all);
    r
}

proof fn answer_found_early(boards: Seq<BoardTagView>, title: Seq<char>, n: int)
    requires
        0 <= n <= boards.len(),
        first_answer(boards.subrange(0, n), title) is Some,
    ensures
        first_answer(boards, title) == first_answer(boards.subrange(0, n), title),
    decreases boards.len(),
{
    if n == boards.len() {
        assert(boards.subrange(0, n) =~= boards);
    } else {
        assert(boards.drop_last().subrange(0, n) =~= boards.subrange(0, n));
        answer_found_early(boards.drop_last(), title, n);
    }
}

fn find_answer(boards: &Vec<BoardTag>, title: &str) -> (r: Option<usize>)
    ensures
        r is Some <==> first_answer(text::views(boards@), title@) is Some,
        r is Some ==> r->0 as nat == first_answer(text::views(boards@), title@)->0,
{
    let ghost all = text::views(boards@);
    let mut i: usize = 0;
    assert(all.subrange(0, 0) =~= Seq::<BoardTagView>::empty());
    while i < boards.len()
        invariant
            i <= boards@.len(),
            all == text::views(boards@),
            first_answer(all.subrange(0, i as int), title@) is None,
        decreases boards.len() - i,
    {
        let ghost next = all.subrange(0, i + 1);
        assert(next.drop_last() =~= all.subrange(0, i as int));
        assert(next.last() == boards@[i as int]@);
        let found = if title.is_empty() {
            boards[i].is_base
        } else {
            strings::same(boards[i].title.as_str(), title)
        };
        if found {
            proof {
                answer_found_early(all, title@, i + 1);
            }
            return Some(i);
        }
        i = i + 1;
    }
    assert(all.subrange(0, i as int) =~= all);
    None
}

/// The board that is shown for a title.
pub fn choose_board(boards: &Vec<BoardTag>, title: &str) -> (r: Option<usize>)
    ensures
        r is Some <==> chosen_board(text::views(boards@), title@) is Some,
        r is Some ==> r->0 as nat == chosen_board(text::views(boards@), title@)->0,
{
    match find_answer(boards, title) {
        Some(i) => Some(i),
        None => {
            let none = String::new();
            assert(none@ =~= Seq::<char>::empty());
            match find_answer(boards, none.as_str()) {
                Some(i) => Some(i),
                None => if boards.len() > 0 {
                    Some(0)
                } else {
                    None
                },
            }
        },
    }
}

/// What is rendered: the active layer's title, for the pill and the tray, and the board
/// that is shown.
#[derive(Debug, PartialEq, Eq)]
pub struct Rendered {
    pub active_layer: String,
    pub board: Option<usize>,
}

/// Resolve the live state to the board that is shown.
pub fn render_board(
    boards: &Vec<BoardTag>,
    stack: &Vec<String>,
    edit_mode: bool,
    edit_layer: &str,
) -> (r: Rendered)
    ensures
        r.active_layer@ == live_title(text::views(boards@), titles_of(text::texts(stack@))),
        (match r.board {
            Some(i) => Some(i as nat),
            None => None,
        }) == chosen_board(
            text::views(boards@),
            wanted_title(
                edit_mode,
                edit_layer@,
                live_title(text::views(boards@), titles_of(text::texts(stack@))),
            ),
        ),
{
    let title = topmost_title(boards, &stack_titles(stack));
    let shown = if !edit_mode {
        strings::copy(title.as_str())
    } else if edit_layer.is_empty() || strings::same(edit_layer, "main") {
        String::new()
    } else {
        strings::to_uppercase(edit_layer)
    };
    assert(shown@ == wanted_title(edit_mode, edit_layer@, title@));
    let board = choose_board(boards, shown.as_str());
    Rendered { active_layer: title, board }
}

/// The keyboard that was asked for, if it is one of the detected ones.
pub open spec fn switched_to(idx: int, sheets: nat) -> Option<nat> {
    if 0 <= idx < sheets {
        Some(idx as nat)
    } else {
        None
    }
}

/// An index as a number.
pub open spec fn at_opt(r: Option<usize>) -> Option<nat> {
    match r {
        Some(i) => Some(i as nat),
        None => None,
    }
}

/// Where the keyboard is shown that was asked for, if it is one of the detected ones.
pub fn switch_keyboard(idx: i32, sheets: usize) -> (r: Option<usize>)
    ensures
        at_opt(r) == switched_to(idx as int, sheets as nat),
{
    if idx >= 0 && (idx as usize) < sheets {
        Some(idx as usize)
    } else {
        None
    }
}

/// The keyboard on screen, from the index that the window holds.
pub open spec fn active_of(index: int) -> nat {
    if index < 0 {
        0
    } else {
        index as nat
    }
}

/// Whether a rebuilt sheet is the one on screen.
pub fn is_active(index: i32, idx: usize) -> (r: bool)
    ensures
        r == (active_of(index as int) == idx),
{
    if index < 0 {
        idx == 0
    } else {
        index as usize == idx
    }
}

/// The keyboard to show when one was taken away and `left` remain: the one at the same
/// index, or the last.
pub open spec fn shown_after(index: int, left: nat) -> Option<nat> {
    if left == 0 {
        None
    } else if active_of(index) < left {
        Some(active_of(index))
    } else {
        Some((left - 1) as nat)
    }
}

/// The index of the keyboard to show when one was taken away and `left` remain.
pub fn reselect(index: i32, left: usize) -> (r: Option<usize>)
    ensures
        at_opt(r) == shown_after(index as int, left as nat),
{
    if left == 0 {
        return None;
    }
    let active: usize = if index < 0 {
        0
    } else {
        index as usize
    };
    if active < left {
        Some(active)
    } else {
        Some(left - 1)
    }
}

/// The cap is picked for the chord: it has a key, and that is a member.
pub open spec fn is_pick(phys: Seq<char>, picks: Seq<Seq<char>>) -> bool {
    phys.len() > 0 && picks.contains(phys)
}

proof fn listed_is_contained(v: Seq<String>, w: Seq<char>)
    ensures
        text::listed(v, w) <==> text::texts(v).contains(w),
{
    let t = text::texts(v);
    if text::listed(v, w) {
        let i = choose|i: int| 0 <= i < v.len() && #[trigger] v[i]@ == w;
        assert(t[i] == w);
    }
    if t.contains(w) {
        let i = choose|i: int| 0 <= i < t.len() && t[i] == w;
        assert(v[i]@ == w);
    }
}

/// Which caps are picked for the chord: those whose key is a member.
pub fn stamp_chord_picks(phys: &Vec<String>, picks: &Vec<String>) -> (r: Vec<bool>)
    ensures
        r@.len() == phys@.len(),
        forall|i: int|
            0 <= i < r@.len() ==> #[trigger] r@[i] == is_pick(phys@[i]@, text::texts(picks@)),
{
    let mut r: Vec<bool> = Vec::new();
    let mut i: usize = 0;
    while i < phys.len()
        invariant
            i <= phys@.len(),
            r@.len() == i,
            forall|k: int|
                0 <= k < i ==> #[trigger] r@[k] == is_pick(phys@[k]@, text::texts(picks@)),
        decreases phys.len() - i,
    {
        let p = phys[i].as_str();
        proof {
            listed_is_contained(picks@, p@);
        }
        let picked = !p.is_empty() && strings::listed(picks, p);
        r.push(picked);
        i = i + 1;
    }
    r
}

/// The cap is lit as a member of the chord being built: it is picked, and edit mode builds
/// chords.
pub open spec fn lit_as_pick(
    phys: Seq<char>,
    picks: Seq<Seq<char>>,
    edit_mode: bool,
    board_mode: Seq<char>,
) -> bool {
    edit_mode && board_mode == "chord"@ && is_pick(phys, picks)
}

/// Which caps are lit as members of the chord being built: the picked ones, and none
/// unless edit mode builds chords.
pub fn lit_picks(
    phys: &Vec<String>,
    picks: &Vec<String>,
    edit_mode: bool,
    board_mode: &str,
) -> (r: Vec<bool>)
    ensures
        r@.len() == phys@.len(),
        forall|i: int|
            0 <= i < r@.len() ==> #[trigger] r@[i] == lit_as_pick(
                phys@[i]@,
                text::texts(picks@),
                edit_mode,
                board_mode@,
            ),
{
    if edit_mode && strings::same(board_mode, "chord") {
        return stamp_chord_picks(phys, picks);
    }
    let mut r: Vec<bool> = Vec::new();
    let mut i: usize = 0;
    while i < phys.len()
        invariant
            i <= phys@.len(),
            r@.len() == i,
            forall|k: int| 0 <= k < i ==> !#[trigger] r@[k],
        decreases phys.len() - i,
    {
        r.push(false);
        i = i + 1;
    }
    r
}

proof fn answer_is_sound(boards: Seq<BoardTagView>, title: Seq<char>)
    ensures
        match first_answer(boards, title) {
            Some(i) => i < boards.len() && answers(boards[i as int], title) && forall|k: int|
                0 <= k < i ==> !answers(#[trigger] boards[k], title),
            None => forall|k: int| 0 <= k < boards.len() ==> !answers(#[trigger] boards[k], title),
        },
    decreases boards.len(),
{
    if boards.len() > 0 {
        let front = boards.drop_last();
        answer_is_sound(front, title);
        assert(forall|k: int| 0 <= k < front.len() ==> front[k] == #[trigger] boards[k]);
    }
}

/// Wherever there are boards one of them is shown, and it answers to the wanted title if
/// any does; the base board stands in for a title without a board.
pub proof fn a_board_is_always_shown(boards: Seq<BoardTagView>, title: Seq<char>)
    ensures
        boards.len() > 0 ==> chosen_board(boards, title) is Some && chosen_board(boards, title)->0
            < boards.len(),
        (exists|i: int| 0 <= i < boards.len() && answers(#[trigger] boards[i], title)) ==> answers(
            boards[chosen_board(boards, title)->0 as int],
            title,
        ),
        !(exists|i: int| 0 <= i < boards.len() && answers(#[trigger] boards[i], title)) && (exists|
            i: int,
        |
            0 <= i < boards.len() && (#[trigger] boards[i]).is_base)
            ==> boards[chosen_board(boards, title)->0 as int].is_base,
{
    answer_is_sound(boards, title);
    answer_is_sound(boards, Seq::empty());
    if exists|i: int| 0 <= i < boards.len() && (#[trigger] boards[i]).is_base {
        let i = choose|i: int| 0 <= i < boards.len() && (#[trigger] boards[i]).is_base;
        assert(answers(boards[i], Seq::empty()));
    }
}

/// A layer of the stack that has a board, and none above it has one.
pub open spec fn is_topmost(boards: Seq<BoardTagView>, titles: Seq<Seq<char>>, k: int) -> bool {
    &&& 0 <= k < titles.len()
    &&& has_board(boards, titles[k])
    &&& forall|j: int| k < j < titles.len() ==> !has_board(boards, #[trigger] titles[j])
}

/// The active layer is the topmost one of the stack that has a board; where none of the
/// stack's has one it is the base.
pub proof fn the_topmost_board_is_active(boards: Seq<BoardTagView>, titles: Seq<Seq<char>>, k: int)
    ensures
        is_topmost(boards, titles, k) ==> live_title(boards, titles) == titles[k],
        (forall|j: int| 0 <= j < titles.len() ==> !has_board(boards, #[trigger] titles[j]))
            ==> live_title(boards, titles).len() == 0,
    decreases titles.len(),
{
    if titles.len() > 0 {
        let front = titles.drop_last();
        the_topmost_board_is_active(boards, front, k);
        assert(titles[titles.len() - 1] == titles.last());
        if is_topmost(boards, titles, k) && k < front.len() {
            assert(!has_board(boards, titles[titles.len() - 1]));
            assert forall|j: int| k < j < front.len() implies !has_board(
                boards,
                #[trigger] front[j],
            ) by {
                assert(front[j] == titles[j]);
            }
            assert(is_topmost(boards, front, k));
        }
        if forall|j: int| 0 <= j < titles.len() ==> !has_board(boards, #[trigger] titles[j]) {
            assert forall|j: int| 0 <= j < front.len() implies !has_board(
                boards,
                #[trigger] front[j],
            ) by {
                assert(front[j] == titles[j]);
            }
        }
    }
}

/// What is shown follows keyd outside edit mode, and is the section being edited inside it,
/// whatever the live layers are; the base board stands for the base section.
pub proof fn the_board_follows_the_layers(
    boards: Seq<BoardTagView>,
    stack: Seq<Seq<char>>,
    editing: bool,
    layer: Seq<char>,
    live: Seq<char>,
)
    ensures
        !editing ==> wanted_title(editing, layer, live) == live,
        editing && layer.len() > 0 && layer != "main"@ ==> wanted_title(editing, layer, live)
            == strings::uppercase_text(layer),
        editing && (layer.len() == 0 || layer == "main"@) ==> wanted_title(
            editing,
            layer,
            live,
        ).len() == 0,
        titles_of(stack).len() == stack.len(),
        forall|i: int|
            0 <= i < stack.len() ==> #[trigger] titles_of(stack)[i] == strings::uppercase_text(
                stack[i],
            ),
{
}

/// The board that is shown is the first that answers: to the base where no title is wanted,
/// else by its title; where none answers it is the first base board, and else the first.
pub proof fn the_first_answering_board_is_shown(boards: Seq<BoardTagView>, title: Seq<char>, i: int)
    requires
        0 <= i < boards.len(),
    ensures
        title.len() > 0 && boards[i].title == title && (forall|j: int|
            0 <= j < i ==> (#[trigger] boards[j]).title != title) ==> chosen_board(boards, title)
            == Some(i as nat),
        title.len() == 0 && boards[i].is_base && (forall|j: int|
            0 <= j < i ==> !(#[trigger] boards[j]).is_base) ==> chosen_board(boards, title)
            == Some(i as nat),
        (forall|j: int| 0 <= j < boards.len() ==> (#[trigger] boards[j]).title != title)
            && boards[i].is_base && (forall|j: int| 0 <= j < i ==> !(#[trigger] boards[j]).is_base)
            ==> chosen_board(boards, title) == Some(i as nat),
        (forall|j: int|
            0 <= j < boards.len() ==> (#[trigger] boards[j]).title != title && !boards[j].is_base)
            ==> chosen_board(boards, title) == Some(0nat),
        chosen_board(Seq::empty(), title) is None,
{
    answer_is_sound(boards, title);
    answer_is_sound(boards, Seq::empty());
    answer_is_sound(Seq::empty(), title);
    answer_is_sound(Seq::empty(), Seq::empty());
    assert(title.len() > 0 && boards[i].title == title ==> answers(boards[i], title));
    assert(boards[i].is_base ==> answers(boards[i], Seq::empty()));
    assert(title.len() == 0 ==> title =~= Seq::<char>::empty());
    if let Some(k) = first_answer(boards, title) {
        assert(title.len() > 0 ==> boards[k as int].title == title);
        assert(title.len() == 0 ==> boards[k as int].is_base);
    }
    if let Some(k) = first_answer(boards, Seq::empty()) {
        assert(boards[k as int].is_base);
    }
}

/// A keyboard is switched to exactly where it is one of those detected, and it is that one.
pub proof fn a_keyboard_that_is_there_is_switched_to(idx: int, sheets: nat)
    ensures
        0 <= idx < sheets ==> switched_to(idx, sheets) == Some(idx as nat),
        idx < 0 || idx >= sheets ==> switched_to(idx, sheets) is None,
        active_of(idx) == (if idx < 0 {
            0
        } else {
            idx
        }),
{
}

/// Where keyboards remain one of them is shown: the one that stood at the same index, or the
/// last where there are not so many; where none remains nothing is.
pub proof fn some_keyboard_stays_on_screen(index: int, left: nat)
    ensures
        left > 0 ==> shown_after(index, left) is Some && shown_after(index, left)->0 < left,
        0 <= index < left ==> shown_after(index, left) == Some(index as nat),
        index < 0 && left > 0 ==> shown_after(index, left) == Some(0nat),
        left > 0 && index >= left ==> shown_after(index, left)->0 == left - 1,
        left == 0 ==> shown_after(index, left) is None,
{
}

/// A cap is lit for the chord exactly where its key was picked and chords are being built; a
/// cap without a key never is.
pub proof fn a_picked_key_is_lit_while_building(
    phys: Seq<char>,
    picks: Seq<Seq<char>>,
    more: Seq<Seq<char>>,
    edit_mode: bool,
    board_mode: Seq<char>,
)
    ensures
        phys.len() > 0 ==> is_pick(phys, picks.push(phys) + more) && lit_as_pick(
            phys,
            picks.push(phys) + more,
            true,
            "chord"@,
        ),
        !picks.contains(phys) ==> !is_pick(phys, picks) && !lit_as_pick(
            phys,
            picks,
            edit_mode,
            board_mode,
        ),
        phys.len() == 0 ==> !is_pick(phys, picks),
        !edit_mode || board_mode != "chord"@ ==> !lit_as_pick(phys, picks, edit_mode, board_mode),
{
    let all = picks.push(phys) + more;
    assert(all[picks.len() as int] == phys);
}

/// A layer has a board exactly where one that is not the base goes by its title: neither the
/// base under that title nor a layer of another one counts. The topmost layer that has one is
/// shown, and a layer without one changes nothing.
pub proof fn only_a_board_of_its_own_shows_a_layer(
    boards: Seq<BoardTagView>,
    titles: Seq<Seq<char>>,
    title: Seq<char>,
)
    ensures
        (exists|i: int|
            0 <= i < boards.len() && !(#[trigger] boards[i]).is_base && boards[i].title == title)
            ==> live_title(boards, titles.push(title)) == title,
        (forall|i: int|
            0 <= i < boards.len() ==> (#[trigger] boards[i]).is_base || boards[i].title != title)
            ==> live_title(boards, titles.push(title)) == live_title(boards, titles),
        live_title(boards, Seq::empty()).len() == 0,
{
    let all = titles.push(title);
    assert(all.drop_last() =~= titles);
    assert(all.last() == title);
    if exists|i: int|
        0 <= i < boards.len() && !(#[trigger] boards[i]).is_base && boards[i].title == title {
        let i = choose|i: int|
            0 <= i < boards.len() && !(#[trigger] boards[i]).is_base && boards[i].title == title;
        assert(is_titled(boards[i], title));
    }
}

} // verus!
