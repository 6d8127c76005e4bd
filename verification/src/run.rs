//! A whole run over a list of ISBNs, as a state machine: the caller performs
//! each action (looking a book up, showing or sending a page, pausing) and
//! reports what happened; the run decides what comes next and keeps count.
use vstd::prelude::*;
use crate::batch;
use crate::batch::{count_outcomes, tally_outcomes, ItemOutcome};
use crate::book::Book;
use crate::isbn;
use crate::isbn::normalize_isbn;
use crate::notion;
use crate::notion::{build_notion_payload, NotionPage};

verus! {

/// Where a run stands.
#[derive(Clone, Copy)]
pub enum Phase {
    /// Between two ISBNs.
    Ready,
    /// Waiting for the OpenBD lookup of the current ISBN.
    Looking,
    /// Waiting until the current page has been shown (dry run).
    Showing,
    /// Waiting for Notion's answer to the current page.
    Sending,
    /// Waiting for the pause after a request to Notion.
    Pausing,
    /// Every ISBN is handled.
    Finished,
}

/// What the caller reports.
pub enum Event {
    /// The last action is done and needed no answer.
    Proceed,
    /// The OpenBD lookup gave this book, or nothing.
    LookedUp(Option<Book>),
    /// Notion accepted the page (`true`) or not.
    Sent(bool),
}

/// What the caller is to do next.
pub enum Action {
    /// The ISBN at `index` is not valid; it is skipped.
    Skip { index: usize },
    /// Look `isbn13`, the ISBN at `index`, up in OpenBD.
    Lookup { index: usize, isbn13: String },
    /// OpenBD has no book for the ISBN at `index`; it is skipped.
    NotFound { index: usize },
    /// Show the page (dry run).
    Show { page: NotionPage },
    /// Send the page to Notion.
    Send { page: NotionPage },
    /// Pause before the next request to Notion.
    Pause,
    /// Nothing to do; go on.
    Next,
    /// The run is over, with these counts of successes, skips and failures.
    Finish { success: usize, skip: usize, fail: usize },
}

/// A run as plain values.
pub struct RunView {
    pub inputs: Seq<Seq<char>>,
    pub dry_run: bool,
    /// The position of the current ISBN: the number of ISBNs already handled.
    pub next: nat,
    pub phase: Phase,
    /// One outcome per handled ISBN, in input order.
    pub outcomes: Seq<ItemOutcome>,
    /// The ISBN-13s looked up in OpenBD, in order.
    pub lookups: Seq<Seq<char>>,
    /// The number of pages sent to Notion.
    pub posts: nat,
}

/// A phase in which the current ISBN has been looked up or is being looked up.
pub open spec fn in_item(p: Phase) -> bool {
    p is Looking || p is Showing || p is Sending
}

/// An outcome that followed a request to Notion.
pub open spec fn is_posted(o: ItemOutcome) -> bool {
    o is Registered || o is RegisterFailed
}

/// The ISBN-13s of the valid inputs, in order.
pub open spec fn valid_isbns(inputs: Seq<Seq<char>>) -> Seq<Seq<char>>
    decreases inputs.len(),
{
    if inputs.len() == 0 {
        Seq::empty()
    } else {
        match isbn::normalized_isbn(inputs.last()) {
            Some(i) => valid_isbns(inputs.drop_last()).push(i),
            None => valid_isbns(inputs.drop_last()),
        }
    }
}

/// What holds of a run at every step: each handled ISBN has exactly one
/// outcome, and an invalid ISBN exactly when it does not normalise; the
/// lookups so far are the ISBN-13s of the valid inputs begun, in order; each
/// page sent is followed by the outcome of its request; a dry run sends
/// nothing and fails nothing.
pub open spec fn run_laws(v: RunView) -> bool {
    &&& v.next <= v.inputs.len()
    &&& v.outcomes.len() == v.next
    &&& v.phase is Finished ==> v.next == v.inputs.len()
    &&& in_item(v.phase) ==> v.next < v.inputs.len() && isbn::normalized_isbn(v.inputs[v.next as int]) is Some
    &&& v.lookups == valid_isbns(v.inputs.take(v.next + if in_item(v.phase) { 1int } else { 0int }))
    &&& forall|i: int| 0 <= i < v.next ==> ((#[trigger] v.outcomes[i] is InvalidIsbn)
        <==> isbn::normalized_isbn(v.inputs[i]) is None)
    &&& v.posts == count_outcomes(v.outcomes, |o: ItemOutcome| is_posted(o)) + if v.phase is Sending { 1nat } else { 0nat }
    &&& v.dry_run ==> v.posts == 0 && count_outcomes(v.outcomes, |o: ItemOutcome| is_posted(o)) == 0
}

/// Whether a run in this state takes this event.
pub open spec fn accepts(v: RunView, e: Event) -> bool {
    match v.phase {
        Phase::Ready | Phase::Showing | Phase::Pausing => e is Proceed,
        Phase::Looking => e is LookedUp,
        Phase::Sending => e is Sent,
        Phase::Finished => false,
    }
}

/// A run over a list of ISBN inputs.
pub struct Run {
    inputs: Vec<String>,
    dry_run: bool,
    database_id: String,
    purchase_date: String,
    next: usize,
    phase: Phase,
    outcomes: Vec<ItemOutcome>,
    lookups: Ghost<Seq<Seq<char>>>,
    posts: Ghost<nat>,
}

impl View for Run {
    type V = RunView;

    closed spec fn view(&self) -> RunView {
        RunView {
            inputs: batch::strings_view(self.inputs@),
            dry_run: self.dry_run,
            next: self.next as nat,
            phase: self.phase,
            outcomes: self.outcomes@,
            lookups: self.lookups@,
            posts: self.posts@,
        }
    }
}

proof fn lemma_count_push(s: Seq<ItemOutcome>, x: ItemOutcome, pred: spec_fn(ItemOutcome) -> bool)
    ensures
        count_outcomes(s.push(x), pred) == count_outcomes(s, pred) + if pred(x) { 1nat } else { 0nat },
{
    assert(s.push(x).drop_last() == s);
}

proof fn lemma_valid_isbns_step(inputs: Seq<Seq<char>>, k: int)
    requires
        0 <= k < inputs.len(),
    ensures
        valid_isbns(inputs.take(k + 1)) == match isbn::normalized_isbn(inputs[k]) {
            Some(i) => valid_isbns(inputs.take(k)).push(i),
            None => valid_isbns(inputs.take(k)),
        },
{
    assert(inputs.take(k + 1).drop_last() == inputs.take(k));
    assert(inputs.take(k + 1).last() == inputs[k]);
}

impl Run {
    /// The database the run's pages go to.
    pub closed spec fn database_id(&self) -> Seq<char> {
        self.database_id@
    }

    /// The purchase date of the run.
    pub closed spec fn purchase_date(&self) -> Seq<char> {
        self.purchase_date@
    }

    /// A run over `inputs` that has handled none of them.
    pub fn new(inputs: Vec<String>, dry_run: bool, database_id: String, purchase_date: String) -> (run: Run)
        ensures
            run@.inputs == batch::strings_view(inputs@),
            run@.dry_run == dry_run,
            run@.next == 0,
            run@.phase is Ready,
            run@.outcomes == Seq::<ItemOutcome>::empty(),
            run@.lookups == Seq::<Seq<char>>::empty(),
            run@.posts == 0,
            run.database_id() == database_id@,
            run.purchase_date() == purchase_date@,
            run_laws(run@),
    {
        let run = Run {
            inputs,
            dry_run,
            database_id,
            purchase_date,
            next: 0,
            phase: Phase::Ready,
            outcomes: Vec::new(),
            lookups: Ghost(Seq::empty()),
            posts: Ghost(0),
        };
        proof {
            let v = run@;
            assert(v.inputs.take(0) == Seq::<Seq<char>>::empty());
        }
        run
    }

    /// Whether the run takes `event` now (see `accepts`).
    pub fn accepts(&self, event: &Event) -> (r: bool)
        ensures
            r == accepts(self@, *event),
    {
        match self.phase {
            Phase::Ready | Phase::Showing | Phase::Pausing => matches!(event, Event::Proceed),
            Phase::Looking => matches!(event, Event::LookedUp(_)),
            Phase::Sending => matches!(event, Event::Sent(_)),
            Phase::Finished => false,
        }
    }

    /// The input about to be handled, with its position: present exactly when
    /// the run is between two ISBNs and some remain.
    pub fn pending_input(&self) -> (r: Option<(usize, &String)>)
        ensures
            r is Some <==> (self@.phase is Ready && self@.next < self@.inputs.len()),
            r matches Some((i, s)) ==> i == self@.next && s@ == self@.inputs[i as int],
    {
        assert(self@.inputs.len() == self.inputs.len());
        match self.phase {
            Phase::Ready => if self.next < self.inputs.len() {
                Some((self.next, &self.inputs[self.next]))
            } else {
                None
            },
            _ => None,
        }
    }

    /// Takes what happened and gives the next action.
    pub fn step(&mut self, event: Event) -> (action: Action)
        requires
            run_laws(old(self)@),
            accepts(old(self)@, event),
            old(self)@.phase is Ready && old(self)@.next < old(self)@.inputs.len()
                ==> isbn::normalize_isbn_defined(old(self)@.inputs[old(self)@.next as int]),
            event matches Event::LookedUp(Some(b)) ==> isbn::isbn13_to_isbn10_defined(b.isbn@),
        ensures
            run_laws(final(self)@),
            final(self)@.inputs == old(self)@.inputs,
            final(self)@.dry_run == old(self)@.dry_run,
            final(self).database_id() == old(self).database_id(),
            final(self).purchase_date() == old(self).purchase_date(),
            // which action follows which phase and event
            old(self)@.phase is Ready ==> action is Skip || action is Lookup || action is Finish,
            old(self)@.phase is Looking ==> (event matches Event::LookedUp(None) ==> action is NotFound)
                && (event matches Event::LookedUp(Some(_)) ==> (action is Show || action is Send)),
            old(self)@.phase is Sending || old(self)@.phase is Showing || old(self)@.phase is Pausing
                ==> (old(self)@.phase is Sending <==> action is Pause) && (!(old(self)@.phase is Sending) ==> action is Next),
            // the phase after each action
            action is Skip || action is NotFound || action is Next ==> final(self)@.phase is Ready,
            action is Lookup ==> final(self)@.phase is Looking,
            action is Show ==> final(self)@.phase is Showing,
            action is Send ==> final(self)@.phase is Sending,
            action is Pause ==> final(self)@.phase is Pausing,
            action is Finish ==> final(self)@.phase is Finished,
            // what each action means
            action matches Action::Skip { index } ==> index == old(self)@.next
                && isbn::normalized_isbn(old(self)@.inputs[index as int]) is None
                && final(self)@.outcomes == old(self)@.outcomes.push(ItemOutcome::InvalidIsbn),
            action matches Action::Lookup { index, isbn13 } ==> index == old(self)@.next
                && isbn::normalized_isbn(old(self)@.inputs[index as int]) == Some(isbn13@)
                && final(self)@.lookups == old(self)@.lookups.push(isbn13@),
            !(action is Lookup) ==> final(self)@.lookups == old(self)@.lookups,
            action matches Action::NotFound { index } ==> index == old(self)@.next
                && final(self)@.outcomes == old(self)@.outcomes.push(ItemOutcome::NotFound),
            action matches Action::Show { page } ==> old(self)@.dry_run && (event matches Event::LookedUp(Some(b))
                && page.database_id@ == old(self).database_id()
                && notion::properties_view(page.properties@) == notion::page_properties(b, old(self).purchase_date())),
            action matches Action::Send { page } ==> !old(self)@.dry_run && (event matches Event::LookedUp(Some(b))
                && page.database_id@ == old(self).database_id()
                && notion::properties_view(page.properties@) == notion::page_properties(b, old(self).purchase_date())),
            action is Send ==> final(self)@.posts == old(self)@.posts + 1,
            !(action is Send) ==> final(self)@.posts == old(self)@.posts,
            action is Pause ==> (event matches Event::Sent(accepted) && final(self)@.outcomes == old(self)@.outcomes.push(
                if accepted { ItemOutcome::Registered } else { ItemOutcome::RegisterFailed })),
            action is Next && old(self)@.phase is Showing ==> final(self)@.outcomes == old(self)@.outcomes.push(ItemOutcome::Shown),
            (action is Lookup || action is Show || action is Send || action is Finish || (action is Next && old(self)@.phase is Pausing))
                ==> final(self)@.outcomes == old(self)@.outcomes,
            // the end of the run
            action matches Action::Finish { success, skip, fail } ==> {
                &&& final(self)@.outcomes.len() == final(self)@.inputs.len()
                &&& final(self)@.lookups == valid_isbns(final(self)@.inputs)
                &&& success == count_outcomes(final(self)@.outcomes, |o: ItemOutcome| batch::is_success(o))
                &&& skip == count_outcomes(final(self)@.outcomes, |o: ItemOutcome| batch::is_skip(o))
                &&& fail == count_outcomes(final(self)@.outcomes, |o: ItemOutcome| batch::is_fail(o))
                &&& success + skip + fail == final(self)@.inputs.len()
                &&& final(self)@.posts == count_outcomes(final(self)@.outcomes, |o: ItemOutcome| is_posted(o))
                &&& final(self)@.dry_run ==> fail == 0 && final(self)@.posts == 0
            },
    {
        let ghost old_view = self@;
        let ghost posted = |o: ItemOutcome| is_posted(o);
        assert(self@.inputs.len() == self.inputs.len());
        match self.phase {
            Phase::Ready => {
                if self.next == self.inputs.len() {
                    self.phase = Phase::Finished;
                    let (success, skip, fail) = tally_outcomes(&self.outcomes);
                    proof {
                        assert(self@.inputs.take(self@.next as int) == self@.inputs);
                        lemma_fail_is_posted(self@.outcomes);
                    }
                    return Action::Finish { success, skip, fail };
                }
                let k = self.next;
                proof {
                    assert(self@.inputs[k as int] == self.inputs@[k as int]@);
                    lemma_valid_isbns_step(self@.inputs, k as int);
                }
                match normalize_isbn(self.inputs[k].as_str()) {
                    None => {
                        self.outcomes.push(ItemOutcome::InvalidIsbn);
                        self.next = k + 1;
                        proof {
                            lemma_count_push(old_view.outcomes, ItemOutcome::InvalidIsbn, posted);
                            assert forall|i: int| 0 <= i < self@.next implies ((#[trigger] self@.outcomes[i] is InvalidIsbn)
                                <==> isbn::normalized_isbn(self@.inputs[i]) is None) by {
                                if i < k {
                                    assert(self@.outcomes[i] == old_view.outcomes[i]);
                                }
                            }
                        }
                        Action::Skip { index: k }
                    },
                    Some(isbn13) => {
                        self.phase = Phase::Looking;
                        proof {
                            self.lookups@ = self.lookups@.push(isbn13@);
                        }
                        Action::Lookup { index: k, isbn13 }
                    },
                }
            },
            Phase::Looking => {
                let book = match event {
                    Event::LookedUp(b) => b,
                    _ => {
                        assert(false);
                        None
                    },
                };
                match book {
                    None => {
                        let k = self.next;
                        self.outcomes.push(ItemOutcome::NotFound);
                        self.next = k + 1;
                        self.phase = Phase::Ready;
                        proof {
                            lemma_count_push(old_view.outcomes, ItemOutcome::NotFound, posted);
                            assert forall|i: int| 0 <= i < self@.next implies ((#[trigger] self@.outcomes[i] is InvalidIsbn)
                                <==> isbn::normalized_isbn(self@.inputs[i]) is None) by {
                                if i < k {
                                    assert(self@.outcomes[i] == old_view.outcomes[i]);
                                }
                            }
                        }
                        Action::NotFound { index: k }
                    },
                    Some(b) => {
                        let page = build_notion_payload(&b, self.database_id.as_str(), self.purchase_date.as_str());
                        if self.dry_run {
                            self.phase = Phase::Showing;
                            Action::Show { page }
                        } else {
                            self.phase = Phase::Sending;
                            proof {
                                self.posts@ = self.posts@ + 1;
                            }
                            Action::Send { page }
                        }
                    },
                }
            },
            Phase::Showing => {
                let k = self.next;
                self.outcomes.push(ItemOutcome::Shown);
                self.next = k + 1;
                self.phase = Phase::Ready;
                proof {
                    lemma_count_push(old_view.outcomes, ItemOutcome::Shown, posted);
                    assert forall|i: int| 0 <= i < self@.next implies ((#[trigger] self@.outcomes[i] is InvalidIsbn)
                        <==> isbn::normalized_isbn(self@.inputs[i]) is None) by {
                        if i < k {
                            assert(self@.outcomes[i] == old_view.outcomes[i]);
                        }
                    }
                }
                Action::Next
            },
            Phase::Sending => {
                let accepted = match event {
                    Event::Sent(a) => a,
                    _ => {
                        assert(false);
                        false
                    },
                };
                let outcome = if accepted { ItemOutcome::Registered } else { ItemOutcome::RegisterFailed };
                let k = self.next;
                self.outcomes.push(outcome);
                self.next = k + 1;
                self.phase = Phase::Pausing;
                proof {
                    lemma_count_push(old_view.outcomes, outcome, posted);
                    assert forall|i: int| 0 <= i < self@.next implies ((#[trigger] self@.outcomes[i] is InvalidIsbn)
                        <==> isbn::normalized_isbn(self@.inputs[i]) is None) by {
                        if i < k {
                            assert(self@.outcomes[i] == old_view.outcomes[i]);
                        }
                    }
                }
                Action::Pause
            },
            Phase::Pausing => {
                self.phase = Phase::Ready;
                Action::Next
            },
            Phase::Finished => {
                assert(false);
                Action::Next
            },
        }
    }
}

proof fn lemma_fail_is_posted(s: Seq<ItemOutcome>)
    ensures
        count_outcomes(s, |o: ItemOutcome| batch::is_fail(o)) <= count_outcomes(s, |o: ItemOutcome| is_posted(o)),
    decreases s.len(),
{
    if s.len() > 0 {
        lemma_fail_is_posted(s.drop_last());
    }
}

} // verus!
