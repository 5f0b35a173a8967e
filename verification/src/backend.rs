//! What a call into the backend of a virtual machine answers: a result and the gas it took.
use crate::text::{decimal, format_amount};
use vstd::prelude::*;
use vstd::string::StringExecFns;

verus! {

/// The gas that a call into the backend took.
#[derive(Clone, Copy, Debug, PartialEq, Eq, Structural)]
pub struct GasInfo {
    /// Gas that was used but is not charged yet.
    pub cost: u64,
    /// Gas that was used and charged outside of the virtual machine.
    pub externally_used: u64,
}

impl GasInfo {
    pub fn with_cost(amount: u64) -> (r: Self)
        ensures
            r == (GasInfo { cost: amount, externally_used: 0 }),
    {
        GasInfo { cost: amount, externally_used: 0 }
    }

    pub fn with_externally_used(amount: u64) -> (r: Self)
        ensures
            r == (GasInfo { cost: 0, externally_used: amount }),
    {
        GasInfo { cost: 0, externally_used: amount }
    }

    /// No gas at all.
    pub fn free() -> (r: Self)
        ensures
            r == (GasInfo { cost: 0, externally_used: 0 }),
    {
        GasInfo { cost: 0, externally_used: 0 }
    }

    /// Adds `other` to the gas counted so far.
    pub fn charge(&mut self, other: GasInfo)
        requires
            old(self).cost + other.cost <= u64::MAX,
            old(self).externally_used + other.externally_used <= u64::MAX,
        ensures
            final(self).cost == old(self).cost + other.cost,
            final(self).externally_used == old(self).externally_used + other.externally_used,
    {
        self.cost = self.cost + other.cost;
        self.externally_used = self.externally_used + other.externally_used;
    }
}

/// Why a call into the backend failed.
#[derive(Clone, Debug, PartialEq, Eq)]
pub enum BackendError {
    /// No iterator was ever opened under this number.
    IteratorDoesNotExist { id: u32 },
    /// A failure of the backend itself.
    Unknown { msg: String },
    /// A failure that is reported back to the contract.
    UserErr { msg: String },
}

/// A [`BackendError`] with its text as a sequence of characters.
pub enum BackendErrorView {
    IteratorDoesNotExist { id: u32 },
    Unknown { msg: Seq<char> },
    UserErr { msg: Seq<char> },
}

impl View for BackendError {
    type V = BackendErrorView;

    open spec fn view(&self) -> BackendErrorView {
        match *self {
            BackendError::IteratorDoesNotExist { id } => BackendErrorView::IteratorDoesNotExist {
                id,
            },
            BackendError::Unknown { msg } => BackendErrorView::Unknown { msg: msg@ },
            BackendError::UserErr { msg } => BackendErrorView::UserErr { msg: msg@ },
        }
    }
}

impl BackendError {
    pub fn iterator_does_not_exist(id: u32) -> (r: Self)
        ensures
            r@ == (BackendErrorView::IteratorDoesNotExist { id }),
    {
        BackendError::IteratorDoesNotExist { id }
    }

    pub fn unknown(msg: &str) -> (r: Self)
        ensures
            r@ == (BackendErrorView::Unknown { msg: msg@ }),
    {
        BackendError::Unknown { msg: msg.to_owned() }
    }

    pub fn user_err(msg: &str) -> (r: Self)
        ensures
            r@ == (BackendErrorView::UserErr { msg: msg@ }),
    {
        BackendError::UserErr { msg: msg.to_owned() }
    }
}

impl BackendErrorView {
    /// The error as a text for people.
    pub open spec fn text(self) -> Seq<char> {
        match self {
            BackendErrorView::IteratorDoesNotExist { id } => "Iterator with ID "@ + decimal(
                id as nat,
            ) + " does not exist"@,
            BackendErrorView::Unknown { msg } => "Unknown error during call into backend: "@ + msg,
            BackendErrorView::UserErr { msg } => "User error during call into backend: "@ + msg,
        }
    }
}

impl BackendError {
    /// The error as a text for people.
    pub fn to_text(&self) -> (r: String)
        ensures
            r@ == self@.text(),
    {
        match self {
            BackendError::IteratorDoesNotExist { id } => {
                let mut text = "Iterator with ID ".to_owned();
                text.append(format_amount(*id as u128).as_str());
                text.append(" does not exist");
                text
            },
            BackendError::Unknown { msg } => {
                let mut text = "Unknown error during call into backend: ".to_owned();
                text.append(msg.as_str());
                text
            },
            BackendError::UserErr { msg } => {
                let mut text = "User error during call into backend: ".to_owned();
                text.append(msg.as_str());
                text
            },
        }
    }
}

/// A result together with the gas that it took, in the good and in the bad case.
pub type BackendResult<T> = (Result<T, BackendError>, GasInfo);

/// The text of an error ends with what it was made with, and errors of one kind have different texts
/// where they were made with different ones.
pub proof fn law_texts_tell_errors_apart(a: Seq<char>, b: Seq<char>, id: u32)
    ensures
        (BackendErrorView::Unknown { msg: a }).text()
            == "Unknown error during call into backend: "@ + a,
        (BackendErrorView::UserErr { msg: a }).text() == "User error during call into backend: "@
            + a,
        (BackendErrorView::IteratorDoesNotExist { id }).text() == "Iterator with ID "@ + decimal(
            id as nat,
        ) + " does not exist"@,
        a != b ==> (BackendErrorView::Unknown { msg: a }).text() != (BackendErrorView::Unknown {
            msg: b,
        }).text(),
        a != b ==> (BackendErrorView::UserErr { msg: a }).text() != (BackendErrorView::UserErr {
            msg: b,
        }).text(),
{
    let unknown = "Unknown error during call into backend: "@;
    let user = "User error during call into backend: "@;
    assert((unknown + a).skip(unknown.len() as int) =~= a);
    assert((unknown + b).skip(unknown.len() as int) =~= b);
    assert((user + a).skip(user.len() as int) =~= a);
    assert((user + b).skip(user.len() as int) =~= b);
}

/// An error is seen with the very text or number that it has.
pub proof fn law_errors_are_seen_whole(msg: String, id: u32)
    ensures
        (BackendError::IteratorDoesNotExist { id })@ == (BackendErrorView::IteratorDoesNotExist {
            id,
        }),
        (BackendError::Unknown { msg })@ == (BackendErrorView::Unknown { msg: msg@ }),
        (BackendError::UserErr { msg })@ == (BackendErrorView::UserErr { msg: msg@ }),
{
}

} // verus!
