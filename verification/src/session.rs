//! Whole commands of the worker, from the first turn to the last.
//!
//! Each turn of the worker is a function of what it knows and of how the last thing it asked for
//! went. Here the turns are joined, for any way in which the network, the server and the disk may
//! answer, to say what the UI sees of a command as a whole.
use vstd::prelude::*;

use crate::calibre::{BookView, GetView};
use crate::download::DownloadStepView;
use crate::i18n::BookState;
use crate::listing::{listing_wf, ListingView};
use crate::net::ConnectError;
use crate::worker::{after_command, after_cover, after_downloaded, after_listed, after_online,
    find_row, reports, CmdView, CoverBytes, ErrandView, MsgView, NextView, WorkerView};

verus! {

/// How everything that one command may ask for goes: going online, each request for the list, each
/// step of a download, and the cover at each place. No command asks for the same thing twice.
pub struct World {
    pub online: spec_fn(ErrandView) -> Result<(), ConnectError>,
    pub reply: spec_fn(ListingView, GetView) -> Result<Seq<u8>, Seq<char>>,
    pub step: spec_fn(DownloadStepView) -> Result<bool, Seq<char>>,
    pub cover: spec_fn(nat) -> Option<CoverBytes>,
}

/// The stage that a command is at: a later stage has a smaller number.
pub open spec fn stage(next: NextView) -> nat {
    match next {
        NextView::Wait => 0,
        NextView::GoOnline(_) => 3,
        NextView::List(ListingView::Search, _) => 2,
        NextView::List(..) => 1,
        NextView::Cover { .. } => 1,
        NextView::Download { .. } => 1,
    }
}

/// What is left of the stage, at most.
pub open spec fn left(next: NextView) -> int {
    match next {
        NextView::List(ListingView::Books { ids, done, .. }, _) => ids.len() - done,
        NextView::Cover { ids, at, .. } => ids.len() - at,
        NextView::Download { step, .. } => match step {
            DownloadStepView::MakeDir => 4,
            DownloadStepView::Check => 3,
            DownloadStepView::Fetch => 2,
            DownloadStepView::Discard(_) => 1,
            DownloadStepView::Rename => 1,
            DownloadStepView::Done => 0,
            DownloadStepView::Failed(_) => 0,
        },
        _ => 0,
    }
}

/// Whether the worker ever asks for this.
pub open spec fn next_wf(next: NextView) -> bool {
    match next {
        NextView::List(listing, _) => listing_wf(listing),
        NextView::Cover { ids, at, .. } => at < ids.len(),
        NextView::Download { step, .. } => !(step is Done || step is Failed),
        _ => true,
    }
}

/// The worker at the end of a command, and what it says from here on, if `next` is to be done next
/// and the world is as given.
pub open spec fn finish(w: WorkerView, next: NextView, world: World) -> (WorkerView, Seq<MsgView>)
    decreases stage(next), left(next),
{
    if !next_wf(next) {
        (w, Seq::empty())
    } else {
        match next {
            NextView::Wait => (w, Seq::empty()),
            NextView::GoOnline(errand) => {
                let turn = after_online(w, errand, (world.online)(errand));
                let (after, said) = finish(w, turn.next, world);
                (after, turn.msgs + said)
            },
            NextView::List(listing, get) => {
                let (then, turn) = after_listed(w, listing, (world.reply)(listing, get));
                let (after, said) = finish(then, turn.next, world);
                (after, turn.msgs + said)
            },
            NextView::Cover { ids, at, .. } => {
                let turn = after_cover(w.client, ids, at, (world.cover)(at));
                let (after, said) = finish(w, turn.next, world);
                (after, turn.msgs + said)
            },
            NextView::Download { id, plan, step } => {
                let turn = after_downloaded(id, plan, step, (world.step)(step));
                let (after, said) = finish(w, turn.next, world);
                (after, turn.msgs + said)
            },
        }
    }
}

/// The worker after a whole command, and everything that it says on it.
pub open spec fn run(w: WorkerView, cmd: CmdView, world: World) -> (WorkerView, Seq<MsgView>) {
    let (then, turn) = after_command(w, cmd);
    let (after, said) = finish(then, turn.next, world);
    (after, turn.msgs + said)
}

/// Whether the last message, and no other, marks the end of a command.
pub open spec fn ends_once(msgs: Seq<MsgView>) -> bool {
    &&& msgs.len() > 0
    &&& msgs.last() == MsgView::Busy(false)
    &&& forall|i: int| 0 <= i < msgs.len() - 1 ==> !(#[trigger] msgs[i] is Busy)
}

/// Whether the first message marks the start of a command, the last one its end, and no other
/// either.
pub open spec fn bracketed(msgs: Seq<MsgView>) -> bool {
    &&& msgs.len() > 0
    &&& msgs[0] == MsgView::Busy(true)
    &&& ends_once(msgs.drop_first())
}

/// Joining messages that do not speak of being busy to an end keeps the end.
proof fn lemma_joined(before: Seq<MsgView>, after: Seq<MsgView>)
    requires
        forall|i: int| 0 <= i < before.len() ==> !(#[trigger] before[i] is Busy),
        ends_once(after),
    ensures
        ends_once(before + after),
{
    let all = before + after;
    assert(all.last() == after.last());
    assert forall|i: int| 0 <= i < all.len() - 1 implies !(#[trigger] all[i] is Busy) by {
        if i < before.len() {
            assert(all[i] == before[i]);
        } else {
            assert(all[i] == after[i - before.len()]);
        }
    }
}

/// Whatever is under way, but for covers, ends.
proof fn lemma_ends(w: WorkerView, next: NextView, world: World)
    requires
        next_wf(next),
        next !is Wait,
        next !is Cover,
    ensures
        ends_once(finish(w, next, world).1),
    decreases stage(next), left(next),
{
    let (then, turn) = match next {
        NextView::GoOnline(errand) => (w, after_online(w, errand, (world.online)(errand))),
        NextView::List(listing, get) => after_listed(w, listing, (world.reply)(listing, get)),
        NextView::Download { id, plan, step } => (
            w,
            after_downloaded(id, plan, step, (world.step)(step)),
        ),
        _ => arbitrary(),
    };
    let said = finish(then, turn.next, world).1;
    if turn.next is Wait {
        assert(turn.msgs + said =~= turn.msgs);
    } else {
        lemma_ends(then, turn.next, world);
        lemma_joined(turn.msgs, said);
    }
}

/// Whatever the world is like, a command to refresh, to download or to change the settings comes to
/// an end, and what the worker says on it starts with that it is busy, ends with that it no longer
/// is, and says neither in between.
pub proof fn whole_commands_are_bracketed(w: WorkerView, cmd: CmdView, world: World)
    requires
        cmd !is Covers,
    ensures
        bracketed(run(w, cmd, world).1),
{
    let (then, turn) = after_command(w, cmd);
    let said = finish(then, turn.next, world).1;
    let all = turn.msgs + said;
    assert(all.drop_first() =~= turn.msgs.drop_first() + said);
    if turn.next is Wait {
        assert(all =~= turn.msgs);
    } else {
        lemma_ends(then, turn.next, world);
        lemma_joined(turn.msgs.drop_first(), said);
    }
}

/// The covers at the places from `at` on that can be had, in order.
pub open spec fn covers_had(ids: Seq<i64>, at: nat, world: World) -> Seq<MsgView>
    decreases ids.len() - at,
{
    if at >= ids.len() {
        Seq::empty()
    } else {
        let rest = covers_had(ids, at + 1, world);
        match (world.cover)(at) {
            Some((width, height, pixels)) => seq![
                MsgView::Cover { id: ids[at as int], width, height, pixels },
            ] + rest,
            None => rest,
        }
    }
}

proof fn lemma_covers(w: WorkerView, next: NextView, world: World)
    requires
        next_wf(next),
        next is Cover,
        w.client.library is Some,
    ensures
        finish(w, next, world) == (w, covers_had(next->ids, next->at, world)),
    decreases left(next),
{
    let ids = next->ids;
    let at = next->at;
    let turn = after_cover(w.client, ids, at, (world.cover)(at));
    let said = finish(w, turn.next, world).1;
    if at + 1 < ids.len() {
        lemma_covers(w, turn.next, world);
    } else {
        assert(covers_had(ids, at + 1, world) =~= said);
    }
    assert(turn.msgs + said =~= covers_had(ids, at, world));
}

/// A command for covers leaves the worker as it is, and all that it says are the covers that can be
/// had, one for each place and in the order asked for; without a library it says nothing.
pub proof fn covers_come_in_the_order_asked_for(w: WorkerView, ids: Seq<i64>, world: World)
    ensures
        run(w, CmdView::Covers(ids), world) == (
            w,
            if w.client.library is Some {
                covers_had(ids, 0, world)
            } else {
                Seq::empty()
            },
        ),
{
    let (then, turn) = after_command(w, CmdView::Covers(ids));
    let said = finish(then, turn.next, world).1;
    if turn.next is Cover {
        lemma_covers(w, turn.next, world);
    }
    assert(turn.msgs + said =~= said);
}

/// A command for covers touches neither the busy mark, nor the status line, nor the list.
pub proof fn covers_leave_the_rest_alone(w: WorkerView, ids: Seq<i64>, world: World)
    ensures
        forall|i: int|
            0 <= i < run(w, CmdView::Covers(ids), world).1.len() ==> #[trigger] run(
                w,
                CmdView::Covers(ids),
                world,
            ).1[i] is Cover,
{
    covers_come_in_the_order_asked_for(w, ids, world);
    lemma_only_covers(ids, 0, world);
}

proof fn lemma_only_covers(ids: Seq<i64>, at: nat, world: World)
    ensures
        forall|i: int|
            0 <= i < covers_had(ids, at, world).len() ==> #[trigger] covers_had(
                ids,
                at,
                world,
            )[i] is Cover,
    decreases ids.len() - at,
{
    if at < ids.len() {
        lemma_only_covers(ids, at + 1, world);
        let rest = covers_had(ids, at + 1, world);
        let all = covers_had(ids, at, world);
        assert forall|i: int| 0 <= i < all.len() implies #[trigger] all[i] is Cover by {
            if all.len() > rest.len() && i > 0 {
                assert(all[i] == rest[i - 1]);
            }
        }
    }
}

/// A download that has begun says three things more: that its book is done or failed, why, and that
/// the worker is no longer busy.
proof fn lemma_download(w: WorkerView, id: i32, next: NextView, world: World)
    requires
        next_wf(next),
        match next {
            NextView::GoOnline(ErrandView::Download { id: for_id, .. }) => for_id == id,
            NextView::Download { id: for_id, .. } => for_id == id,
            _ => false,
        },
    ensures
        ({
            let (after, said) = finish(w, next, world);
            &&& after == w
            &&& said.len() == 3
            &&& said[0] == MsgView::BookState(id, BookState::Done) || said[0] == MsgView::BookState(
                id,
                BookState::Failed,
            )
            &&& said[1] is Status
            &&& said[0] == MsgView::BookState(id, BookState::Done) <==> said[1]->Status_0 is Saved
            &&& said[2] == MsgView::Busy(false)
        }),
    decreases stage(next), left(next),
{
    let turn = match next {
        NextView::GoOnline(errand) => after_online(w, errand, (world.online)(errand)),
        NextView::Download { id, plan, step } => after_downloaded(
            id,
            plan,
            step,
            (world.step)(step),
        ),
        _ => arbitrary(),
    };
    let said = finish(w, turn.next, world).1;
    if turn.next is Wait {
        assert(turn.msgs + said =~= turn.msgs);
    } else {
        lemma_download(w, id, turn.next, world);
        assert(turn.msgs + said =~= said);
    }
}

/// A download of a book that can be had shows it as in progress and then, whatever happens, as done
/// or as failed: as done exactly where the file is reported as saved. It leaves the worker as it is
/// and speaks of no other book.
pub proof fn a_whole_download_settles_its_book(w: WorkerView, id: i32, world: World)
    requires
        find_row(w.known, id) matches Some(book) && book.format is Some,
    ensures
        ({
            let (after, said) = run(w, CmdView::Download(id), world);
            &&& after == w
            &&& said.len() == 6
            &&& said[0] == MsgView::Busy(true)
            &&& said[1] == MsgView::BookState(id, BookState::InProgress)
            &&& said[2] is Status
            &&& said[3] == MsgView::BookState(id, BookState::Done) || said[3] == MsgView::BookState(
                id,
                BookState::Failed,
            )
            &&& said[4] is Status
            &&& said[3] == MsgView::BookState(id, BookState::Done) <==> said[4]->Status_0 is Saved
            &&& said[5] == MsgView::Busy(false)
        }),
{
    let (then, turn) = after_command(w, CmdView::Download(id));
    lemma_download(w, id, turn.next, world);
}

/// What is said before a list is reported leaves the report as it is.
proof fn lemma_reports(
    known: Seq<BookView>,
    before: Seq<MsgView>,
    said: Seq<MsgView>,
    after: Seq<BookView>,
)
    requires
        reports(known, said, after),
        forall|i: int| 0 <= i < before.len() ==> !(#[trigger] before[i] is Books),
    ensures
        reports(known, before + said, after),
{
    let all = before + said;
    if said.contains(MsgView::Books(after)) {
        let i = choose|i: int| 0 <= i < said.len() && said[i] == MsgView::Books(after);
        assert(all[before.len() + i] == MsgView::Books(after));
    } else {
        assert forall|i: int| 0 <= i < all.len() implies !(#[trigger] all[i] is Books) by {
            if i < before.len() {
                assert(all[i] == before[i]);
            } else {
                assert(all[i] == said[i - before.len()]);
            }
        }
    }
}

proof fn lemma_known(w: WorkerView, next: NextView, world: World)
    ensures
        reports(w.known, finish(w, next, world).1, finish(w, next, world).0.known),
    decreases stage(next), left(next),
{
    if next_wf(next) && next !is Wait {
        let (then, turn) = match next {
            NextView::GoOnline(errand) => (w, after_online(w, errand, (world.online)(errand))),
            NextView::List(listing, get) => after_listed(w, listing, (world.reply)(listing, get)),
            NextView::Cover { ids, at, .. } => (
                w,
                after_cover(w.client, ids, at, (world.cover)(at)),
            ),
            NextView::Download { id, plan, step } => (
                w,
                after_downloaded(id, plan, step, (world.step)(step)),
            ),
            NextView::Wait => arbitrary(),
        };
        let (after, said) = finish(then, turn.next, world);
        if turn.next is Wait {
            assert(turn.msgs + said =~= turn.msgs);
            if then.known != w.known {
                assert(turn.msgs[1] == MsgView::Books(then.known));
            } else if turn.msgs.len() == 3 && turn.msgs[1] is Books {
                assert(turn.msgs[1] == MsgView::Books(then.known));
            }
        } else {
            lemma_known(then, turn.next, world);
            lemma_reports(w.known, turn.msgs, said, after.known);
        }
    }
}

/// After any whole command the worker knows the list that was reported on it, or, where none was,
/// the one it knew before: it looks books up in what is on screen.
pub proof fn the_known_list_is_the_reported_one(w: WorkerView, cmd: CmdView, world: World)
    ensures
        reports(w.known, run(w, cmd, world).1, run(w, cmd, world).0.known),
{
    let (then, turn) = after_command(w, cmd);
    let (after, said) = finish(then, turn.next, world);
    if turn.next is Wait {
        assert(turn.msgs + said =~= turn.msgs);
        if cmd is Reconfigure {
            assert(turn.msgs[1] == MsgView::Books(after.known));
        }
    } else {
        lemma_known(then, turn.next, world);
        lemma_reports(w.known, turn.msgs, said, after.known);
    }
}

/// What the worker says on each of several commands, each in its own world, one after another.
pub open spec fn session(w: WorkerView, cmds: Seq<CmdView>, worlds: Seq<World>) -> Seq<
    Seq<MsgView>,
>
    decreases cmds.len(),
{
    if cmds.len() == 0 {
        Seq::empty()
    } else {
        let (after, said) = run(w, cmds[0], worlds[0]);
        seq![said] + session(after, cmds.drop_first(), worlds.drop_first())
    }
}

/// Commands are worked off one by one: what is said on each is whole before the next one starts,
/// and is bracketed, or, for covers, nothing but covers.
pub proof fn sessions_go_command_by_command(
    w: WorkerView,
    cmds: Seq<CmdView>,
    worlds: Seq<World>,
)
    requires
        worlds.len() == cmds.len(),
    ensures
        session(w, cmds, worlds).len() == cmds.len(),
        forall|i: int|
            #![trigger session(w, cmds, worlds)[i]]
            0 <= i < cmds.len() ==> if cmds[i] is Covers {
                forall|k: int|
                    0 <= k < session(w, cmds, worlds)[i].len() ==> #[trigger] session(
                        w,
                        cmds,
                        worlds,
                    )[i][k] is Cover
            } else {
                bracketed(session(w, cmds, worlds)[i])
            },
    decreases cmds.len(),
{
    if cmds.len() > 0 {
        let all = session(w, cmds, worlds);
        let (after, said) = run(w, cmds[0], worlds[0]);
        let rest = session(after, cmds.drop_first(), worlds.drop_first());
        sessions_go_command_by_command(after, cmds.drop_first(), worlds.drop_first());
        match cmds[0] {
            CmdView::Covers(ids) => covers_leave_the_rest_alone(w, ids, worlds[0]),
            _ => whole_commands_are_bracketed(w, cmds[0], worlds[0]),
        }
        assert forall|i: int|
            #![trigger all[i]]
            0 <= i < cmds.len() implies if cmds[i] is Covers {
            forall|k: int| 0 <= k < all[i].len() ==> #[trigger] all[i][k] is Cover
        } else {
            bracketed(all[i])
        } by {
            if i > 0 {
                assert(all[i] == rest[i - 1]);
                assert(cmds[i] == cmds.drop_first()[i - 1]);
            } else {
                assert(all[i] == said);
            }
        }
    }
}

} // verus!
