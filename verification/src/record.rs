use vstd::prelude::*;

verus! {

/// A persisted row: the identifier the store assigned on creation, and the
/// text payload it was created with.
pub struct Record {
    pub id: i32,
    pub txt: String,
}

/// Mathematical image of a [`Record`]: an unbounded integer id and the
/// payload as a sequence of characters.
#[verifier::ext_equal]
pub struct RecordView {
    pub id: int,
    pub txt: Seq<char>,
}

impl View for Record {
    type V = RecordView;

    open spec fn view(&self) -> RecordView {
        RecordView { id: self.id as int, txt: self.txt@ }
    }
}

impl Clone for Record {
    fn clone(&self) -> (r: Record)
        ensures
            r@ == self@,
    {
        Record { id: self.id, txt: self.txt.clone() }
    }
}

} // verus!
