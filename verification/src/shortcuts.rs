//! How the shortcuts that the user has chosen are registered.
//!
//! The system registers them one by one, and may refuse. Then none of the new ones stays.

use crate::desktop::{
    is_global_shortcut_action, is_native_hold_key_binding, GLOBAL_ACTION_RECORD_HOLD,
};
use crate::text::{copy_opt, same, trim_text};
use vstd::prelude::*;

verus! {

/// A shortcut that the user has chosen for an action.
pub struct GlobalShortcutBinding {
    pub action: String,
    pub accelerator: String,
}

/// The model of a [`GlobalShortcutBinding`].
#[verifier::ext_equal]
pub struct BindingView {
    pub action: Seq<char>,
    pub accelerator: Seq<char>,
}

impl View for GlobalShortcutBinding {
    type V = BindingView;

    open spec fn view(&self) -> BindingView {
        BindingView { action: self.action@, accelerator: self.accelerator@ }
    }
}

/// A choice without blanks around it.
pub open spec fn tidied(b: BindingView) -> BindingView {
    BindingView {
        action: crate::text::trimmed(b.action),
        accelerator: crate::text::trimmed(b.accelerator),
    }
}

/// Whether a choice counts: there is such an action, and a key for it.
pub open spec fn counts(b: BindingView) -> bool {
    b.action.len() > 0 && b.accelerator.len() > 0 && crate::desktop::is_action(b.action)
}

/// Whether a choice is for the key that is held down.
pub open spec fn is_hold(b: BindingView, supported: bool) -> bool {
    b.action == GLOBAL_ACTION_RECORD_HOLD@ && supported && crate::desktop::hold_kind(
        b.accelerator,
    ) is Some
}

/// The choices that the system is to register.
pub open spec fn to_register(list: Seq<BindingView>, supported: bool) -> Seq<BindingView>
    decreases list.len(),
{
    if list.len() == 0 {
        Seq::empty()
    } else {
        let head = to_register(list.drop_last(), supported);
        let b = tidied(list.last());
        if counts(b) && !is_hold(b, supported) {
            head.push(b)
        } else {
            head
        }
    }
}

/// The key that is held down: the last one that was chosen.
pub open spec fn chosen_hold(list: Seq<BindingView>, supported: bool) -> Option<Seq<char>>
    decreases list.len(),
{
    if list.len() == 0 {
        None
    } else {
        let b = tidied(list.last());
        if counts(b) && is_hold(b, supported) {
            Some(b.accelerator)
        } else {
            chosen_hold(list.drop_last(), supported)
        }
    }
}

/// What the user's choices come to: the shortcuts that the system is to register, and the key that
/// is held down.
pub fn plan_shortcuts(bindings: &Vec<GlobalShortcutBinding>, supported: bool) -> (r: (
    Vec<GlobalShortcutBinding>,
    Option<String>,
))
    ensures
        crate::records::views(r.0@) == to_register(crate::records::views(bindings@), supported),
        crate::text::opt_view(r.1) == chosen_hold(crate::records::views(bindings@), supported),
{
    let ghost all = crate::records::views(bindings@);
    let mut out: Vec<GlobalShortcutBinding> = Vec::new();
    let mut hold: Option<String> = None;
    let mut i: usize = 0;
    assert(all.take(0) =~= Seq::empty());
    assert(crate::records::views(out@) =~= to_register(all.take(0), supported));
    while i < bindings.len()
        invariant
            i <= bindings@.len(),
            all == crate::records::views(bindings@),
            crate::records::views(out@) == to_register(all.take(i as int), supported),
            crate::text::opt_view(hold) == chosen_hold(all.take(i as int), supported),
        decreases bindings.len() - i,
    {
        let action = trim_text(bindings[i].action.as_str());
        let accelerator = trim_text(bindings[i].accelerator.as_str());
        let ghost before = crate::records::views(out@);
        let ghost b = tidied(all[i as int]);
        proof {
            assert(all[i as int] == bindings@[i as int]@);
            assert(all.take(i + 1).drop_last() =~= all.take(i as int));
            assert(all.take(i + 1).last() == all[i as int]);
        }
        if !action.as_str().is_empty() && !accelerator.as_str().is_empty()
            && is_global_shortcut_action(action.as_str()) {
            if same(action.as_str(), GLOBAL_ACTION_RECORD_HOLD) && is_native_hold_key_binding(
                accelerator.as_str(),
                supported,
            ) {
                hold = Some(accelerator);
            } else {
                out.push(GlobalShortcutBinding { action, accelerator });
                assert(crate::records::views(out@) =~= before.push(b));
            }
        }
        i = i + 1;
    }
    assert(all.take(all.len() as int) =~= all);
    (out, hold)
}

// ---------------------------------------------------------------------------
// Registering
// ---------------------------------------------------------------------------

/// A shortcut with the number that the system knows it by.
pub struct RegisteredGlobalShortcut {
    pub id: u32,
    pub action: String,
    pub accelerator: String,
}

/// The model of a [`RegisteredGlobalShortcut`].
#[verifier::ext_equal]
pub struct ShortcutView {
    pub id: u32,
    pub action: Seq<char>,
    pub accelerator: Seq<char>,
}

impl View for RegisteredGlobalShortcut {
    type V = ShortcutView;

    open spec fn view(&self) -> ShortcutView {
        ShortcutView { id: self.id, action: self.action@, accelerator: self.accelerator@ }
    }
}

/// The numbers of shortcuts.
pub open spec fn ids_of(list: Seq<ShortcutView>) -> Seq<u32> {
    list.map_values(|s: ShortcutView| s.id)
}

/// The shortcuts without those whose number another one before them has.
pub open spec fn distinct(list: Seq<ShortcutView>) -> Seq<ShortcutView>
    decreases list.len(),
{
    if list.len() == 0 {
        Seq::empty()
    } else {
        let head = distinct(list.drop_last());
        if ids_of(head).contains(list.last().id) {
            head
        } else {
            head.push(list.last())
        }
    }
}

/// The shortcuts that are registered.
pub struct GlobalShortcutRegistry {
    pub shortcuts: Vec<RegisteredGlobalShortcut>,
}

impl View for GlobalShortcutRegistry {
    type V = Seq<ShortcutView>;

    open spec fn view(&self) -> Seq<ShortcutView> {
        crate::records::views(self.shortcuts@)
    }
}

/// The first shortcut, from index `i` on, with the given number.
pub open spec fn shortcut_at(list: Seq<ShortcutView>, id: u32, i: int) -> Option<ShortcutView>
    decreases list.len() - i,
{
    if i < 0 || i >= list.len() {
        None
    } else if list[i].id == id {
        Some(list[i])
    } else {
        shortcut_at(list, id, i + 1)
    }
}

fn collect_ids(list: &Vec<RegisteredGlobalShortcut>, n: usize) -> (r: Vec<u32>)
    requires
        n <= list@.len(),
    ensures
        r@ == ids_of(crate::records::views(list@)).take(n as int),
{
    let ghost all = ids_of(crate::records::views(list@));
    let mut out: Vec<u32> = Vec::new();
    let mut i: usize = 0;
    while i < n
        invariant
            i <= n <= list@.len(),
            all == ids_of(crate::records::views(list@)),
            out@ == all.take(i as int),
        decreases n - i,
    {
        out.push(list[i].id);
        assert(all.take(i + 1) =~= all.take(i as int).push(all[i as int]));
        i = i + 1;
    }
    out
}

fn has_id(list: &Vec<RegisteredGlobalShortcut>, id: u32) -> (r: bool)
    ensures
        r == ids_of(crate::records::views(list@)).contains(id),
{
    let ghost all = ids_of(crate::records::views(list@));
    let mut i: usize = 0;
    while i < list.len()
        invariant
            i <= list@.len(),
            all == ids_of(crate::records::views(list@)),
            forall|j: int| 0 <= j < i ==> #[trigger] all[j] != id,
        decreases list.len() - i,
    {
        assert(all[i as int] == list@[i as int].id);
        if list[i].id == id {
            return true;
        }
        i = i + 1;
    }
    false
}

fn keep_distinct(list: &Vec<RegisteredGlobalShortcut>) -> (r: Vec<RegisteredGlobalShortcut>)
    ensures
        crate::records::views(r@) == distinct(crate::records::views(list@)),
{
    let ghost all = crate::records::views(list@);
    let mut out: Vec<RegisteredGlobalShortcut> = Vec::new();
    let mut i: usize = 0;
    assert(all.take(0) =~= Seq::empty());
    assert(crate::records::views(out@) =~= distinct(all.take(0)));
    while i < list.len()
        invariant
            i <= list@.len(),
            all == crate::records::views(list@),
            crate::records::views(out@) == distinct(all.take(i as int)),
        decreases list.len() - i,
    {
        let ghost before = crate::records::views(out@);
        proof {
            assert(all[i as int] == list@[i as int]@);
            assert(all.take(i + 1).drop_last() =~= all.take(i as int));
            assert(all.take(i + 1).last() == all[i as int]);
        }
        if !has_id(&out, list[i].id) {
            out.push(
                RegisteredGlobalShortcut {
                    id: list[i].id,
                    action: list[i].action.clone(),
                    accelerator: list[i].accelerator.clone(),
                },
            );
            assert(crate::records::views(out@) =~= before.push(all[i as int]));
        }
        i = i + 1;
    }
    assert(all.take(all.len() as int) =~= all);
    out
}

impl GlobalShortcutRegistry {
    /// No shortcuts.
    pub fn new() -> (r: GlobalShortcutRegistry)
        ensures
            r@ == Seq::<ShortcutView>::empty(),
    {
        let r = GlobalShortcutRegistry { shortcuts: Vec::new() };
        assert(r@ =~= Seq::<ShortcutView>::empty());
        r
    }

    /// The shortcut that the system knows by a number.
    pub fn lookup(&self, id: u32) -> (r: Option<&RegisteredGlobalShortcut>)
        ensures
            match r {
                Some(s) => shortcut_at(self@, id, 0) == Some(s@),
                None => shortcut_at(self@, id, 0) is None,
            },
    {
        let ghost all = self@;
        assert(all.len() == self.shortcuts@.len());
        let mut i: usize = 0;
        while i < self.shortcuts.len()
            invariant
                i <= self.shortcuts@.len(),
                all == self@,
                all.len() == self.shortcuts@.len(),
                shortcut_at(all, id, 0) == shortcut_at(all, id, i as int),
            decreases self.shortcuts.len() - i,
        {
            assert(all[i as int] == self.shortcuts@[i as int]@);
            if self.shortcuts[i].id == id {
                return Some(&self.shortcuts[i]);
            }
            i = i + 1;
        }
        None
    }
}

/// What is waited for.
#[derive(Clone, Copy, Debug, PartialEq, Eq, Structural)]
pub enum SetupStage {
    /// The shortcuts before are being given back.
    Clearing,
    /// The new shortcut with this index is being registered.
    Registering(usize),
    Over,
}

/// What is to be done next.
pub enum SetupAction {
    /// Give these back.
    Unregister(Vec<u32>),
    /// Register the shortcut with this index.
    Register(usize),
    /// Give these back, whatever comes of it, and report the error.
    RollBack { ids: Vec<u32>, message: String },
    /// All are registered. The key that is held down is the given one.
    Finish { hold: Option<String> },
    /// Report the error.
    Fail(String),
}

/// The model of a [`SetupAction`].
pub enum SetupActionView {
    Unregister(Seq<u32>),
    Register(int),
    RollBack(Seq<u32>, Seq<char>),
    Finish(Option<Seq<char>>),
    Fail(Seq<char>),
}

impl View for SetupAction {
    type V = SetupActionView;

    open spec fn view(&self) -> SetupActionView {
        match self {
            SetupAction::Unregister(ids) => SetupActionView::Unregister(ids@),
            SetupAction::Register(k) => SetupActionView::Register(*k as int),
            SetupAction::RollBack { ids, message } => SetupActionView::RollBack(ids@, message@),
            SetupAction::Finish { hold } => SetupActionView::Finish(crate::text::opt_view(*hold)),
            SetupAction::Fail(e) => SetupActionView::Fail(e@),
        }
    }
}

/// The shortcuts on their way: those that are to be registered, each number once, and the key that
/// is held down.
pub struct ShortcutSetup {
    pub shortcuts: Vec<RegisteredGlobalShortcut>,
    pub hold: Option<String>,
    pub stage: SetupStage,
}

/// The model of a [`ShortcutSetup`].
#[verifier::ext_equal]
pub struct SetupView {
    pub shortcuts: Seq<ShortcutView>,
    pub hold: Option<Seq<char>>,
    pub stage: SetupStage,
}

impl View for ShortcutSetup {
    type V = SetupView;

    open spec fn view(&self) -> SetupView {
        SetupView {
            shortcuts: crate::records::views(self.shortcuts@),
            hold: crate::text::opt_view(self.hold),
            stage: self.stage,
        }
    }
}

/// Whether a step can be reported on.
pub open spec fn can_step(v: SetupView) -> bool {
    match v.stage {
        SetupStage::Clearing => true,
        SetupStage::Registering(k) => k < v.shortcuts.len(),
        SetupStage::Over => false,
    }
}

/// What follows once the first `k` shortcuts are registered.
pub open spec fn go_on_from(v: SetupView, k: int) -> (SetupView, SetupActionView) {
    if k < v.shortcuts.len() {
        (
            SetupView { stage: SetupStage::Registering(k as usize), ..v },
            SetupActionView::Register(k),
        )
    } else {
        (SetupView { stage: SetupStage::Over, ..v }, SetupActionView::Finish(v.hold))
    }
}

/// How the registration of shortcuts begins: with those before being given back, where there are
/// any.
pub open spec fn setup_begins(v: SetupView, before: Seq<ShortcutView>) -> (
    SetupView,
    SetupActionView,
) {
    if before.len() > 0 {
        (
            SetupView { stage: SetupStage::Clearing, ..v },
            SetupActionView::Unregister(ids_of(before)),
        )
    } else {
        go_on_from(v, 0)
    }
}

/// What follows a step, given its error where it failed.
pub open spec fn setup_step(v: SetupView, error: Option<Seq<char>>) -> (
    SetupView,
    SetupActionView,
) {
    let over = SetupView { stage: SetupStage::Over, ..v };
    match (v.stage, error) {
        (SetupStage::Clearing, Some(e)) => (over, SetupActionView::Fail(e)),
        (SetupStage::Clearing, None) => go_on_from(v, 0),
        (SetupStage::Registering(k), Some(e)) => (
            over,
            SetupActionView::RollBack(
                ids_of(v.shortcuts).take(k as int),
                v.shortcuts[k as int].accelerator + ": "@ + e,
            ),
        ),
        (SetupStage::Registering(k), None) => go_on_from(v, k + 1),
        (SetupStage::Over, _) => (over, SetupActionView::Finish(v.hold)),
    }
}

impl ShortcutSetup {
    /// Begins to register shortcuts, given those that are registered. Of those with one number the
    /// first counts.
    pub fn begin(
        parsed: &Vec<RegisteredGlobalShortcut>,
        hold: Option<String>,
        before: &GlobalShortcutRegistry,
    ) -> (r: (ShortcutSetup, SetupAction))
        ensures
            (r.0@, r.1@) == setup_begins(
                (SetupView {
                    shortcuts: distinct(crate::records::views(parsed@)),
                    hold: crate::text::opt_view(hold),
                    stage: SetupStage::Over,
                }),
                before@,
            ),
    {
        let shortcuts = keep_distinct(parsed);
        assert(crate::records::views(before.shortcuts@).len() == before.shortcuts@.len());
        let mut setup = ShortcutSetup { shortcuts, hold, stage: SetupStage::Over };
        if before.shortcuts.len() > 0 {
            let ids = collect_ids(&before.shortcuts, before.shortcuts.len());
            assert(ids@ =~= ids_of(before@));
            setup.stage = SetupStage::Clearing;
            (setup, SetupAction::Unregister(ids))
        } else {
            let action = setup.go_on(0);
            (setup, action)
        }
    }

    fn go_on(&mut self, k: usize) -> (r: SetupAction)
        ensures
            (final(self)@, r@) == go_on_from(old(self)@, k as int),
    {
        assert(crate::records::views(self.shortcuts@).len() == self.shortcuts@.len());
        if k < self.shortcuts.len() {
            self.stage = SetupStage::Registering(k);
            SetupAction::Register(k)
        } else {
            self.stage = SetupStage::Over;
            SetupAction::Finish { hold: copy_opt(&self.hold) }
        }
    }

    /// Takes what became of the last step, and gives the next one.
    pub fn step(&mut self, error: Option<String>) -> (r: SetupAction)
        requires
            can_step(old(self)@),
        ensures
            (final(self)@, r@) == setup_step(old(self)@, crate::text::opt_view(error)),
    {
        let ghost v = self@;
        assert(crate::records::views(self.shortcuts@).len() == self.shortcuts@.len());
        match self.stage {
            SetupStage::Clearing => match error {
                Some(e) => {
                    self.stage = SetupStage::Over;
                    SetupAction::Fail(e)
                },
                None => self.go_on(0),
            },
            SetupStage::Registering(k) => match error {
                Some(e) => {
                    let ids = collect_ids(&self.shortcuts, k);
                    let mut message = self.shortcuts[k].accelerator.clone();
                    message.append(": ");
                    message.append(e.as_str());
                    assert(v.shortcuts[k as int] == self.shortcuts@[k as int]@);
                    self.stage = SetupStage::Over;
                    SetupAction::RollBack { ids, message }
                },
                None => {
                    let len: usize = self.shortcuts.len();
                    assert(k < len);
                    self.go_on(k + 1)
                },
            },
            SetupStage::Over => SetupAction::Finish { hold: copy_opt(&self.hold) },
        }
    }

    /// The shortcuts that are registered once all is done.
    pub fn into_registry(self) -> (r: GlobalShortcutRegistry)
        ensures
            r@ == self@.shortcuts,
    {
        GlobalShortcutRegistry { shortcuts: self.shortcuts }
    }
}

/// No number is registered twice.
pub proof fn law_shortcuts_are_distinct(list: Seq<ShortcutView>)
    ensures
        ids_of(distinct(list)).no_duplicates(),
        forall|i: int|
            0 <= i < list.len() ==> ids_of(distinct(list)).contains((#[trigger] list[i]).id),
    decreases list.len(),
{
    if list.len() > 0 {
        let head = distinct(list.drop_last());
        law_shortcuts_are_distinct(list.drop_last());
        let ids = ids_of(distinct(list));
        let before = ids_of(head);
        let last = list.last();
        if !before.contains(last.id) {
            assert(ids =~= before.push(last.id));
            assert(ids[before.len() as int] == last.id);
            assert forall|i: int, j: int| 0 <= i < ids.len() && 0 <= j < ids.len() && i != j implies
                #[trigger] ids[i] != #[trigger] ids[j] by {
                if i < before.len() && j < before.len() {
                    assert(before[i] != before[j]);
                }
            }
        }
        assert forall|i: int| 0 <= i < list.len() implies ids.contains((#[trigger] list[i]).id) by {
            if i < list.len() - 1 {
                assert(list.drop_last()[i] == list[i]);
                let k = choose|k: int| 0 <= k < before.len() && before[k] == list[i].id;
                assert(ids[k] == list[i].id);
            } else if before.contains(last.id) {
                let k = choose|k: int| 0 <= k < before.len() && before[k] == last.id;
                assert(ids[k] == last.id);
            }
        }
    }
}

/// Where a shortcut is refused, exactly those that were registered before it are given back.
pub proof fn law_refused_shortcuts_leave_nothing(v: SetupView, error: Seq<char>)
    requires
        can_step(v),
        v.stage is Registering,
    ensures
        setup_step(v, Some(error)).1 matches SetupActionView::RollBack(ids, _) && ids =~= ids_of(
            v.shortcuts,
        ).take(v.stage->Registering_0 as int),
        setup_step(v, Some(error)).0.stage is Over,
{
}

/// Every shortcut is registered before all is done.
pub proof fn law_every_shortcut_is_registered(v: SetupView)
    requires
        can_step(v),
        v.stage is Registering,
    ensures
        ({
            let k = v.stage->Registering_0 as int;
            let (w, action) = setup_step(v, None);
            if k + 1 < v.shortcuts.len() {
                action == SetupActionView::Register(k + 1) && w.stage == SetupStage::Registering(
                    (k + 1) as usize,
                )
            } else {
                action == SetupActionView::Finish(v.hold) && w.stage is Over
            }
        }),
{
}

/// What is to be registered are the bindings, without the white space round them, of the known
/// actions that have an accelerator, except for a recording key that is watched in another way.
pub proof fn law_bindings_are_registered(list: Seq<BindingView>, supported: bool, b: BindingView)
    ensures
        to_register(list, supported).contains(b) <==> exists|i: int|
            0 <= i < list.len() && b.action == crate::text::trimmed((#[trigger] list[i]).action)
                && b.accelerator == crate::text::trimmed(list[i].accelerator) && b.action.len() > 0
                && b.accelerator.len() > 0 && crate::desktop::is_action(b.action) && !(b.action
                == "record.hold"@ && supported && crate::desktop::hold_kind(b.accelerator) is Some),
    decreases list.len(),
{
    let all = to_register(list, supported);
    if list.len() > 0 {
        let front = list.drop_last();
        let head = to_register(front, supported);
        let last = tidied(list.last());
        law_bindings_are_registered(front, supported, b);
        assert(list[list.len() - 1] == list.last());
        if counts(last) && !is_hold(last, supported) {
            assert(all =~= head.push(last));
            assert(all[head.len() as int] == last);
            if head.contains(b) {
                let k = choose|k: int| 0 <= k < head.len() && head[k] == b;
                assert(all[k] == b);
            }
        }
        assert forall|i: int| 0 <= i < front.len() implies #[trigger] front[i] == list[i] by {}
        if all.contains(b) {
            if head.contains(b) {
                let i = choose|i: int|
                    0 <= i < front.len() && b.action == crate::text::trimmed(
                        (#[trigger] front[i]).action,
                    ) && b.accelerator == crate::text::trimmed(front[i].accelerator);
                assert(list[i] == front[i]);
            } else {
                assert(b == last);
            }
        } else {
            assert forall|i: int|
                0 <= i < list.len() && b.action == crate::text::trimmed((#[trigger] list[i]).action)
                    && b.accelerator == crate::text::trimmed(list[i].accelerator) && b.action.len()
                    > 0 && b.accelerator.len() > 0 && crate::desktop::is_action(
                    b.action,
                ) implies b.action == "record.hold"@ && supported && crate::desktop::hold_kind(
                b.accelerator,
            ) is Some by {
                if i < front.len() {
                    assert(front[i] == list[i]);
                } else {
                    assert(b == last);
                }
            }
        }
    }
}

/// The recording key that is watched is that of the last binding that asks for one, and none is
/// where watching is not supported.
pub proof fn law_last_recording_key_is_watched(list: Seq<BindingView>, supported: bool, i: int)
    requires
        0 <= i < list.len(),
    ensures
        !supported ==> chosen_hold(list, supported) is None,
        ({
            let asks = |b: BindingView|
                crate::text::trimmed(b.action) == "record.hold"@ && crate::text::trimmed(
                    b.accelerator,
                ).len() > 0 && crate::desktop::hold_kind(crate::text::trimmed(b.accelerator)) is Some;
            supported && asks(list[i]) && (forall|j: int|
                i < j < list.len() ==> !asks(#[trigger] list[j])) ==> chosen_hold(list, supported)
                == Some(crate::text::trimmed(list[i].accelerator))
        }),
    decreases list.len(),
{
    let front = list.drop_last();
    reveal_strlit("record.hold");
    if i < front.len() {
        law_last_recording_key_is_watched(front, supported, i);
        assert(front[i] == list[i]);
        assert(list[list.len() - 1] == list.last());
        assert forall|j: int| 0 <= j < front.len() implies #[trigger] front[j] == list[j] by {}
    } else {
        lemma_none_without_support(front, supported);
    }
}

proof fn lemma_none_without_support(list: Seq<BindingView>, supported: bool)
    ensures
        !supported ==> chosen_hold(list, supported) is None,
    decreases list.len(),
{
    if list.len() > 0 {
        lemma_none_without_support(list.drop_last(), supported);
    }
}

/// What was registered before is cleared first, all of it. Then the shortcuts are registered from
/// the first on, and a failure to clear ends the setup with what went wrong.
pub proof fn law_setup_clears_first(v: SetupView, before: Seq<ShortcutView>, error: Seq<char>)
    ensures
        before.len() > 0 ==> {
            &&& setup_begins(v, before).1 matches SetupActionView::Unregister(ids)
            &&& ids.len() == before.len()
            &&& forall|i: int| 0 <= i < ids.len() ==> #[trigger] ids[i] == before[i].id
        },
        before.len() > 0 ==> setup_begins(v, before).0.stage is Clearing,
        before.len() == 0 && v.shortcuts.len() > 0 ==> setup_begins(v, before).1
            == SetupActionView::Register(0),
        before.len() == 0 && v.shortcuts.len() == 0 ==> setup_begins(v, before).1
            == SetupActionView::Finish(v.hold),
        v.stage is Clearing && v.shortcuts.len() > 0 ==> setup_step(v, None).1
            == SetupActionView::Register(0),
        v.stage is Clearing && v.shortcuts.len() == 0 ==> setup_step(v, None).1
            == SetupActionView::Finish(v.hold),
        v.stage is Clearing ==> setup_step(v, Some(error)).1 == SetupActionView::Fail(error),
        v.stage is Registering && can_step(v) ==> (setup_step(v, Some(error)).1 matches
            SetupActionView::RollBack(_, message) && message
            == v.shortcuts[v.stage->Registering_0 as int].accelerator + ": "@ + error),
{
}

/// A shortcut is found by its number, and one that is found is one of those that stand.
pub proof fn law_shortcuts_are_found_by_number(list: Seq<ShortcutView>, id: u32, i: int)
    requires
        0 <= i,
    ensures
        match shortcut_at(list, id, i) {
            Some(s) => s.id == id && exists|k: int| i <= k < list.len() && #[trigger] list[k] == s,
            None => forall|k: int| i <= k < list.len() ==> (#[trigger] list[k]).id != id,
        },
    decreases list.len() - i,
{
    if i < list.len() {
        if list[i].id != id {
            law_shortcuts_are_found_by_number(list, id, i + 1);
        }
    }
}

} // verus!
