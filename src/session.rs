use vstd::prelude::*;
use vstd::utf8::{decode_utf8, valid_utf8};
use crate::card::{card_text, render};
use crate::csv_table::{csv_header_of, csv_headers, csv_records, csv_rows_of};
use crate::normalize::{normalize, normalized};
use crate::ranking::{
    card_score, is_stable_order, lemma_stable_order_unique, score_all, stable_order,
};
use crate::record::{Columns, Record};

verus! {

/// Why a file could not be taken in.
#[derive(Debug, PartialEq, Eq, Structural)]
pub enum IngestError {
    /// The file's bytes are not UTF-8 text.
    Encoding,
}

/// Relies on `String::from_utf8`: text exactly when the bytes are valid UTF-8, namely the text
/// they encode.
#[verifier::external_body]
fn utf8_text(bytes: &[u8]) -> (r: Option<String>)
    ensures
        r is Some <==> valid_utf8(bytes@),
        r is Some ==> r->0@ == decode_utf8(bytes@),
{
    String::from_utf8(bytes.to_vec()).ok()
}

/// The fields of the records that decoded, in file order.
pub open spec fn decoded_rows(rows: Seq<Option<Seq<Seq<char>>>>) -> Seq<Seq<Seq<char>>>
    decreases rows.len(),
{
    if rows.len() == 0 {
        Seq::empty()
    } else {
        let prev = decoded_rows(rows.drop_last());
        match rows.last() {
            Some(f) => prev.push(f),
            None => prev,
        }
    }
}

/// The applicants read so far, their cards, and the order in which they are shown.
pub struct Session {
    /// Every record, with a spacer after each batch.
    pub records: Vec<Record>,
    /// The card of each record, at the same position; a spacer's card is empty.
    pub cards: Vec<String>,
    /// Positions into `cards`, lowest score first.
    pub sort_order: Vec<usize>,
    /// Whether any record has been read.
    pub parsed: bool,
}

impl Session {
    pub open spec fn wf(&self) -> bool {
        &&& self.records@.len() == self.cards@.len()
        &&& forall|i: int| 0 <= i < self.sort_order@.len() ==> self.sort_order@[i] < self.cards@.len()
    }

    /// The score of each card against `query`.
    pub open spec fn scores_for(&self, query: Seq<char>) -> Seq<i64> {
        Seq::new(self.cards@.len(), |i: int| card_score(self.cards@[i]@, query))
    }

    /// `after` is `self` with the records' scores set to `scores` and shown in stable
    /// ascending score order.
    pub open spec fn scored(&self, scores: Seq<i64>, after: Session) -> bool {
        &&& after.cards == self.cards
        &&& after.parsed == self.parsed
        &&& after.records@.len() == self.records@.len()
        &&& forall|i: int| 0 <= i < self.records@.len() ==> (#[trigger] after.records@[i]) == (Record {
                score: scores[i],
                ..self.records@[i]
            })
        &&& is_stable_order(after.sort_order@, scores)
    }

    /// `after` is `self` once the header `h` and the records `all` have been taken in: the
    /// decoded records appended at positions 1, 2, ... in file order with their cards, then a
    /// spacer, all shown in stored order.
    pub open spec fn ingested_rows(
        &self,
        h: Seq<Seq<char>>,
        all: Seq<Option<Seq<Seq<char>>>>,
        after: Session,
    ) -> bool {
        let rows = decoded_rows(all);
        let n = self.records@.len() as int;
        let last = n + rows.len();
        &&& after.records@.len() == n + rows.len() + 1
        &&& after.records@.take(n) == self.records@
        &&& after.cards@.take(n) == self.cards@
        &&& forall|k: int|
            0 <= k < rows.len() ==> {
                &&& (#[trigger] after.records@[n + k]).read_from(h, rows[k], (k + 1) as nat)
                &&& after.cards@[n + k]@ == card_text(after.records@[n + k])
            }
        &&& after.records@[last].is_blank()
        &&& after.records@[last].index == 0
        &&& after.records@[last].score == 0
        &&& after.cards@[last]@ == Seq::<char>::empty()
        &&& after.sort_order@.len() == after.records@.len()
        &&& forall|i: int| 0 <= i < after.sort_order@.len() ==> after.sort_order@[i] == i
        &&& after.parsed == (self.parsed || rows.len() > 0)
        &&& after.wf()
    }

    /// `after` is `self` once the text `text` has been read: normalized, then read as CSV.
    pub open spec fn ingested(&self, text: Seq<char>, after: Session) -> bool {
        self.ingested_rows(csv_header_of(normalized(text)), csv_rows_of(normalized(text)), after)
    }

    /// A session with nothing read.
    pub fn new() -> (s: Session)
        ensures
            s.wf(),
            s.records@.len() == 0,
            s.cards@.len() == 0,
            s.sort_order@.len() == 0,
            !s.parsed,
    {
        Session { records: Vec::new(), cards: Vec::new(), sort_order: Vec::new(), parsed: false }
    }

    /// Reads the file's bytes. Bytes that are not UTF-8 leave the session as it was; otherwise
    /// the text is taken in and the number of records that failed to decode is returned.
    pub fn ingest(&mut self, bytes: &[u8]) -> (r: Result<usize, IngestError>)
        requires
            old(self).wf(),
        ensures
            r is Err <==> !valid_utf8(bytes@),
            r is Err ==> r == Err::<usize, IngestError>(IngestError::Encoding) && *final(self)
                == *old(self),
            r is Ok ==> old(self).ingested(decode_utf8(bytes@), *final(self)),
            r is Ok ==> r->Ok_0 == csv_rows_of(normalized(decode_utf8(bytes@))).len() - decoded_rows(
                csv_rows_of(normalized(decode_utf8(bytes@))),
            ).len(),
    {
        match utf8_text(bytes) {
            Some(text) => Ok(self.ingest_text(text.as_str())),
            None => Err(IngestError::Encoding),
        }
    }

    /// Reads a file's text: normalizes it, reads its records, and appends each one that decodes,
    /// with its card, then a spacer; the shown order becomes the stored order. Returns the number
    /// of records that failed to decode.
    pub fn ingest_text(&mut self, text: &str) -> (skipped: usize)
        requires
            old(self).wf(),
        ensures
            old(self).ingested(text@, *final(self)),
            skipped == csv_rows_of(normalized(text@)).len() - decoded_rows(
                csv_rows_of(normalized(text@)),
            ).len(),
    {
        let t = normalize(text);
        let headers = csv_headers(t.as_str());
        let rows = csv_records(t.as_str());
        self.ingest_rows(&headers, &rows)
    }

    /// Takes in the records of a file under its header: appends each one that decoded, at
    /// positions 1, 2, ..., with its card, then a spacer; the shown order becomes the stored
    /// order. Returns the number of records that failed to decode.
    pub fn ingest_rows(
        &mut self,
        headers: &Vec<String>,
        rows: &Vec<Option<Vec<String>>>,
    ) -> (skipped: usize)
        requires
            old(self).wf(),
        ensures
            old(self).ingested_rows(headers.deep_view(), rows.deep_view(), *final(self)),
            skipped == rows@.len() - decoded_rows(rows.deep_view()).len(),
    {
        let cols = Columns::locate(&headers);
        let ghost h = headers.deep_view();
        let ghost all = rows.deep_view();
        let ghost n = self.records@.len();
        let ghost old_self = *self;
        let mut index: usize = 0;
        let mut skipped: usize = 0;
        let mut i: usize = 0;
        while i < rows.len()
            invariant
                old_self.wf(),
                cols.located_in(h),
                h == headers.deep_view(),
                all == rows.deep_view(),
                i <= rows@.len(),
                n == old_self.records@.len(),
                index as nat == decoded_rows(all.take(i as int)).len(),
                index + skipped == i,
                self.records@.len() == n + index,
                self.cards@.len() == n + index,
                self.records@.take(n as int) == old_self.records@,
                self.cards@.take(n as int) == old_self.cards@,
                self.sort_order == old_self.sort_order,
                self.parsed == (old_self.parsed || index > 0),
                forall|k: int|
                    0 <= k < index ==> {
                        &&& (#[trigger] self.records@[n + k]).read_from(
                            h,
                            decoded_rows(all.take(i as int))[k],
                            (k + 1) as nat,
                        )
                        &&& self.cards@[n + k]@ == card_text(self.records@[n + k])
                    },
            decreases rows.len() - i,
        {
            assert(all.take(i + 1).drop_last() =~= all.take(i as int));
            let ghost prev = decoded_rows(all.take(i as int));
            match &rows[i] {
                Some(fields) => {
                    assert(all[i as int] == Some(fields.deep_view()));
                    index = index + 1;
                    let r = Record::from_located(&cols, Ghost(h), fields, index);
                    let card = render(&r);
                    self.cards.push(card);
                    self.records.push(r);
                    self.parsed = true;
                    assert(decoded_rows(all.take(i + 1)) == prev.push(fields.deep_view()));
                },
                None => {
                    skipped = skipped + 1;
                },
            }
            assert(self.records@.take(n as int) =~= old_self.records@);
            assert(self.cards@.take(n as int) =~= old_self.cards@);
            i = i + 1;
        }
        assert(all.take(rows.len() as int) =~= all);
        self.cards.push(String::new());
        self.records.push(Record::spacer());
        assert(self.records@.take(n as int) =~= old_self.records@);
        assert(self.cards@.take(n as int) =~= old_self.cards@);
        let mut order: Vec<usize> = Vec::new();
        let mut p: usize = 0;
        while p < self.records.len()
            invariant
                p <= self.records@.len(),
                order@.len() == p,
                forall|j: int| 0 <= j < p ==> order@[j] == j,
            decreases self.records.len() - p,
        {
            order.push(p);
            p = p + 1;
        }
        self.sort_order = order;
        proof {
            lemma_decoded_rows_len(all);
        }
        skipped
    }

    /// Sets each record's score to the one at its position in `scores` and shows the records in
    /// stable ascending score order.
    pub fn apply_scores(&mut self, scores: &Vec<i64>)
        requires
            old(self).wf(),
            scores@.len() == old(self).cards@.len(),
        ensures
            old(self).scored(scores@, *final(self)),
            final(self).wf(),
    {
        let mut i: usize = 0;
        while i < self.records.len()
            invariant
                self.records@.len() == scores@.len(),
                i <= self.records@.len(),
                self.cards == old(self).cards,
                self.parsed == old(self).parsed,
                self.records@.len() == old(self).records@.len(),
                forall|j: int|
                    0 <= j < self.records@.len() ==> (#[trigger] self.records@[j]) == (Record {
                        score: if j < i {
                            scores@[j]
                        } else {
                            old(self).records@[j].score
                        },
                        ..old(self).records@[j]
                    }),
            decreases self.records.len() - i,
        {
            self.records[i].score = scores[i];
            i = i + 1;
        }
        let order = stable_order(scores);
        self.sort_order = order;
    }

    /// Scores every card against `query` and shows the records in stable ascending score order.
    pub fn search(&mut self, query: &str)
        requires
            old(self).wf(),
        ensures
            old(self).scored(old(self).scores_for(query@), *final(self)),
            final(self).wf(),
    {
        let scores = score_all(&self.cards, query);
        assert(scores@ =~= self.scores_for(query@));
        self.apply_scores(&scores);
    }

    /// The cards in the order shown: highest score first.
    pub fn shown_cards(&self) -> (r: Vec<String>)
        requires
            self.wf(),
        ensures
            r@.len() == self.sort_order@.len(),
            forall|i: int|
                0 <= i < r@.len() ==> r@[i] == self.cards@[self.sort_order@[self.sort_order@.len()
                    - 1 - i] as int],
    {
        let n = self.sort_order.len();
        let mut r: Vec<String> = Vec::new();
        let mut i: usize = 0;
        while i < n
            invariant
                self.wf(),
                n == self.sort_order@.len(),
                i <= n,
                r@.len() == i,
                forall|j: int|
                    0 <= j < i ==> r@[j] == self.cards@[self.sort_order@[n - 1 - j] as int],
            decreases n - i,
        {
            let c = self.cards[self.sort_order[n - 1 - i]].clone();
            r.push(c);
            i = i + 1;
        }
        r
    }
}

proof fn lemma_decoded_rows_len(rows: Seq<Option<Seq<Seq<char>>>>)
    ensures
        decoded_rows(rows).len() <= rows.len(),
    decreases rows.len(),
{
    if rows.len() > 0 {
        lemma_decoded_rows_len(rows.drop_last());
    }
}

/// Taking in a batch numbers its decoded records 1, 2, ..., N in file order, N being the number
/// of records that decoded, and renumbers nothing read before.
pub proof fn lemma_batch_indices(
    s0: Session,
    h: Seq<Seq<char>>,
    all: Seq<Option<Seq<Seq<char>>>>,
    s1: Session,
)
    requires
        s0.ingested_rows(h, all, s1),
    ensures
        s1.records@.len() == s0.records@.len() + decoded_rows(all).len() + 1,
        forall|k: int|
            0 <= k < decoded_rows(all).len() ==> #[trigger] s1.records@[s0.records@.len() + k].index
                == k + 1,
        forall|i: int| 0 <= i < s0.records@.len() ==> #[trigger] s1.records@[i] == s0.records@[i],
{
    let n = s0.records@.len() as int;
    assert forall|k: int| 0 <= k < decoded_rows(all).len() implies #[trigger] s1.records@[n
        + k].index == k + 1 by {
        assert(s1.records@[n + k].read_from(h, decoded_rows(all)[k], (k + 1) as nat));
    }
    assert forall|i: int| 0 <= i < n implies #[trigger] s1.records@[i] == s0.records@[i] by {
        assert(s1.records@.take(n)[i] == s1.records@[i]);
    }
}

/// Searching twice for the same query, with nothing read in between, shows the same order.
pub proof fn lemma_search_idempotent(s0: Session, q: Seq<char>, s1: Session, s2: Session)
    requires
        s0.scored(s0.scores_for(q), s1),
        s1.scored(s1.scores_for(q), s2),
    ensures
        s2.sort_order@ == s1.sort_order@,
{
    assert(s1.scores_for(q) =~= s0.scores_for(q));
    lemma_stable_order_unique(s1.sort_order@, s2.sort_order@, s0.scores_for(q));
}

} // verus!
