use vstd::prelude::*;

use crate::auth::AuthToken;
use crate::error::{Error, ErrorView, Reason, Status};
use crate::pointer::SharedPointer;

verus! {

/// The subjects allowed through a filter, each held once.
pub struct SubjectList {
    subjects: Vec<String>,
}

impl SubjectList {
    #[verifier::type_invariant]
    spec fn held_once(self) -> bool {
        forall|i: int, j: int|
            0 <= i < j < self.subjects.len() ==> #[trigger] self.subjects@[i]@
                != #[trigger] self.subjects@[j]@
    }
}

impl View for SubjectList {
    type V = Set<Seq<char>>;

    closed spec fn view(&self) -> Set<Seq<char>> {
        Set::new(|p: Seq<char>| exists|i: int| 0 <= i < self.subjects.len() && #[trigger] self.subjects@[i]@ == p)
    }
}

impl SubjectList {
    pub fn new() -> (r: SubjectList)
        ensures
            r@ == Set::<Seq<char>>::empty(),
    {
        let r = SubjectList { subjects: Vec::new() };
        assert(r@ =~= Set::<Seq<char>>::empty());
        r
    }

    pub fn contains(&self, subject: &String) -> (r: bool)
        ensures
            r == self@.contains(subject@),
    {
        let n = self.subjects.len();
        let mut i: usize = 0;
        while i < n
            invariant
                n == self.subjects@.len(),
                i <= n,
                forall|j: int| 0 <= j < i ==> self.subjects@[j]@ != subject@,
            decreases n - i,
        {
            if self.subjects[i] == *subject {
                assert(self.subjects@[i as int]@ == subject@);
                return true;
            }
            i += 1;
        }
        false
    }

    /// Adds a subject; a subject already held is not added twice.
    pub fn insert(&mut self, subject: String)
        ensures
            final(self)@ == old(self)@.insert(subject@),
    {
        proof {
            use_type_invariant(&*self);
        }
        if !self.contains(&subject) {
            let mut subjects: Vec<String> = Vec::new();
            std::mem::swap(&mut subjects, &mut self.subjects);
            let ghost before = subjects@;
            subjects.push(subject);
            assert(subjects@[before.len() as int] == subject);
            *self = SubjectList { subjects };
        }
        assert(self@ =~= old(self)@.insert(subject@)) by {
            assert forall|p: Seq<char>| self@.contains(p) implies old(self)@.insert(subject@).contains(p) by {
                let i = choose|i: int| 0 <= i < self.subjects.len() && #[trigger] self.subjects@[i]@ == p;
                if i < old(self).subjects.len() {
                    assert(old(self).subjects@[i] == self.subjects@[i]);
                }
            }
            assert forall|p: Seq<char>| old(self)@.insert(subject@).contains(p) implies self@.contains(p) by {
                if p != subject@ {
                    let i = choose|i: int| 0 <= i < old(self).subjects.len() && #[trigger] old(self).subjects@[i]@ == p;
                    assert(self.subjects@[i] == old(self).subjects@[i]);
                } else if !old(self)@.contains(p) {
                    assert(self.subjects@[old(self).subjects.len() as int]@ == p);
                }
            }
        }
    }
}


/// The pieces of `s` between commas, as `str::split(',')` gives them: there
/// is always at least one piece, and pieces may be empty.
pub open spec fn split_commas(s: Seq<char>) -> Seq<Seq<char>>
    decreases s.len(),
{
    if s.len() == 0 {
        seq![Seq::<char>::empty()]
    } else {
        let rest = split_commas(s.drop_last());
        if s.last() == ',' {
            rest.push(Seq::<char>::empty())
        } else {
            rest.update(rest.len() - 1, rest.last().push(s.last()))
        }
    }
}

proof fn lemma_push_to_set(pieces: Seq<Seq<char>>, x: Seq<char>)
    ensures
        pieces.push(x).to_set() == pieces.to_set().insert(x),
{
    assert forall|p: Seq<char>| pieces.push(x).to_set().contains(p) implies pieces.to_set().insert(x).contains(p) by {
        let i = choose|i: int| 0 <= i < pieces.push(x).len() && pieces.push(x)[i] == p;
        if i < pieces.len() {
            assert(pieces[i] == p);
        }
    }
    assert forall|p: Seq<char>| pieces.to_set().insert(x).contains(p) implies pieces.push(x).to_set().contains(p) by {
        if p == x {
            assert(pieces.push(x)[pieces.len() as int] == p);
        } else {
            let i = choose|i: int| 0 <= i < pieces.len() && pieces[i] == p;
            assert(pieces.push(x)[i] == p);
        }
    }
    assert(pieces.push(x).to_set() =~= pieces.to_set().insert(x));
}

/// Reads a comma-separated list of subjects, such as the admins named by the
/// server's configuration; every piece between commas is a subject.
pub fn parse_subjects(text: &str) -> (r: SubjectList)
    ensures
        r@ == split_commas(text@).to_set(),
{
    let n = text.unicode_len();
    let mut list = SubjectList::new();
    let mut start: usize = 0;
    let mut i: usize = 0;
    let ghost mut done: Seq<Seq<char>> = Seq::empty();
    assert(text@.take(0) =~= Seq::<char>::empty());
    assert(text@.subrange(0, 0) =~= Seq::<char>::empty());
    assert(done.to_set() =~= Set::<Seq<char>>::empty());
    while i < n
        invariant
            n == text@.len(),
            start <= i <= n,
            split_commas(text@.take(i as int)) == done.push(text@.subrange(start as int, i as int)),
            list@ == done.to_set(),
        decreases n - i,
    {
        let c = text.get_char(i);
        let ghost prefix = text@.take(i + 1);
        assert(prefix.drop_last() =~= text@.take(i as int));
        assert(prefix.last() == c);
        if c == ',' {
            let piece = String::from_str(text.substring_char(start, i));
            proof {
                lemma_push_to_set(done, piece@);
                done = done.push(piece@);
            }
            list.insert(piece);
            start = i + 1;
            assert(text@.subrange(start as int, start as int) =~= Seq::<char>::empty());
        } else {
            assert(text@.subrange(start as int, i + 1) =~= text@.subrange(start as int, i as int).push(c));
        }
        i += 1;
    }
    assert(text@.take(n as int) =~= text@);
    let piece = String::from_str(text.substring_char(start, n));
    proof {
        lemma_push_to_set(done, piece@);
    }
    list.insert(piece);
    list
}

pub open spec fn invalid_claims_error() -> ErrorView {
    ErrorView { passthrough: false, status: Status::Unauthorized, reason: Reason::SubFilter, message: "Invalid JWT"@ }
}

pub open spec fn not_authorized_error() -> ErrorView {
    ErrorView {
        passthrough: false,
        status: Status::Unauthorized,
        reason: Reason::SubFilter,
        message: "Account is not authorized"@,
    }
}

/// What the filter answers: a request passes when the subject of its
/// claims is among the authorized ones.
pub open spec fn filter_outcome(authorized: Set<Seq<char>>, subject: Option<Seq<char>>) -> Option<ErrorView> {
    match subject {
        None => Some(invalid_claims_error()),
        Some(s) => if authorized.contains(s) {
            None
        } else {
            Some(not_authorized_error())
        },
    }
}

pub open spec fn token_subject(token: Option<&AuthToken>) -> Option<Seq<char>> {
    match token {
        Some(t) => Some(t.sub@),
        None => None,
    }
}

/// The filter in front of the routes that only admins may use.
pub struct SubjectFilterService {
    pub authorized: SharedPointer<SubjectList>,
}

impl SubjectFilterService {
    pub fn new(authorized: SharedPointer<SubjectList>) -> (r: SubjectFilterService)
        ensures
            r.authorized == authorized,
    {
        SubjectFilterService { authorized }
    }

    /// Lets a request through, or refuses it, given the claims that the
    /// authorization step attached to it, if any.
    pub fn call(&self, token: Option<&AuthToken>) -> (r: Result<(), Error>)
        ensures
            match filter_outcome(self.authorized.value()@, token_subject(token)) {
                None => r is Ok,
                Some(e) => r matches Err(err) && err@ == e,
            },
    {
        match token {
            None => Err(
                Error::Static {
                    status: Status::Unauthorized,
                    reason: Reason::SubFilter,
                    message: "Invalid JWT",
                },
            ),
            Some(t) => {
                if self.authorized.get_pointer().contains(&t.sub) {
                    Ok(())
                } else {
                    Err(
                        Error::Static {
                            status: Status::Unauthorized,
                            reason: Reason::SubFilter,
                            message: "Account is not authorized",
                        },
                    )
                }
            },
        }
    }
}


/// Every subject named in the configured list passes the filter built from
/// that list.
pub proof fn lemma_listed_subject_passes(text: Seq<char>, subject: Seq<char>)
    requires
        split_commas(text).contains(subject),
    ensures
        filter_outcome(split_commas(text).to_set(), Some(subject)) == None::<ErrorView>,
{
}

/// A subject that the configured list does not name is refused as not
/// authorized.
pub proof fn lemma_unlisted_subject_is_refused(text: Seq<char>, subject: Seq<char>)
    requires
        !split_commas(text).contains(subject),
    ensures
        filter_outcome(split_commas(text).to_set(), Some(subject)) == Some(not_authorized_error()),
{
}

/// A request without verified claims never passes the filter.
pub proof fn lemma_missing_claims_are_refused(authorized: Set<Seq<char>>)
    ensures
        filter_outcome(authorized, None) == Some(invalid_claims_error()),
{
}


/// The pieces written out again, with a comma between each two.
pub open spec fn join_commas(pieces: Seq<Seq<char>>) -> Seq<char>
    decreases pieces.len(),
{
    if pieces.len() == 0 {
        seq![]
    } else if pieces.len() == 1 {
        pieces[0]
    } else {
        join_commas(pieces.drop_last()) + seq![','] + pieces.last()
    }
}

/// Splitting at commas loses nothing and cuts only at commas: there is at
/// least one piece, no piece holds a comma, and writing the pieces out with
/// a comma between each two gives back the text.
pub proof fn lemma_split_pieces_rebuild_text(s: Seq<char>)
    ensures
        split_commas(s).len() >= 1,
        forall|k: int, i: int|
            0 <= k < split_commas(s).len() && 0 <= i < split_commas(s)[k].len() ==> #[trigger] split_commas(
                s,
            )[k][i] != ',',
        join_commas(split_commas(s)) == s,
    decreases s.len(),
{
    if s.len() == 0 {
        assert(join_commas(split_commas(s)) =~= s);
    } else {
        let front = s.drop_last();
        lemma_split_pieces_rebuild_text(front);
        let rest = split_commas(front);
        let c = s.last();
        let pieces = split_commas(s);
        if c == ',' {
            assert(pieces == rest.push(Seq::<char>::empty()));
            assert(pieces.drop_last() =~= rest);
            assert(join_commas(pieces) == join_commas(rest) + seq![','] + Seq::<char>::empty());
            assert(join_commas(pieces) =~= s);
            assert forall|k: int, i: int|
                0 <= k < pieces.len() && 0 <= i < pieces[k].len() implies #[trigger] pieces[k][i] != ',' by {
                assert(pieces[k] == rest[k]);
            }
        } else {
            let last = rest.last().push(c);
            assert(pieces == rest.update(rest.len() - 1, last));
            assert(pieces.drop_last() =~= rest.drop_last());
            assert(pieces.last() == last);
            if rest.len() == 1 {
                assert(join_commas(rest) == rest[0]);
                assert(pieces.len() == 1);
                assert(pieces[0] == last);
                assert(s =~= front.push(c));
                assert(join_commas(pieces) =~= s);
            } else {
                assert(join_commas(rest) == join_commas(rest.drop_last()) + seq![','] + rest.last());
                assert(join_commas(pieces) == join_commas(rest.drop_last()) + seq![','] + last);
                assert(s =~= front.push(c));
                assert(join_commas(pieces) =~= s);
            }
            assert forall|k: int, i: int|
                0 <= k < pieces.len() && 0 <= i < pieces[k].len() implies #[trigger] pieces[k][i] != ',' by {
                if k < rest.len() - 1 {
                    assert(pieces[k] == rest[k]);
                } else if i < rest.last().len() {
                    assert(pieces[k][i] == rest[rest.len() - 1][i]);
                }
            }
        }
    }
}

} // verus!
