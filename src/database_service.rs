//! The memo store: create, read, update, delete, search and statistics over
//! one table of memos whose identifiers the store assigns.
use vstd::prelude::*;
use crate::text::{chars_of, contains_pattern, like, like_match, text_less, text_lt};

verus! {

/// A note. `id` is `None` only on a value that was never stored.
#[derive(Clone, Debug)]
pub struct Memo {
    pub id: Option<i32>,
    pub title: String,
    pub content: String,
    pub created_at: String,
    pub updated_at: String,
}

pub struct MemoView {
    pub id: Option<i32>,
    pub title: Seq<char>,
    pub content: Seq<char>,
    pub created_at: Seq<char>,
    pub updated_at: Seq<char>,
}

impl View for Memo {
    type V = MemoView;

    open spec fn view(&self) -> MemoView {
        MemoView {
            id: self.id,
            title: self.title@,
            content: self.content@,
            created_at: self.created_at@,
            updated_at: self.updated_at@,
        }
    }
}

impl Memo {
    /// A field-by-field copy.
    pub fn copy(&self) -> (r: Memo)
        ensures
            r@ == self@,
    {
        Memo {
            id: self.id,
            title: self.title.clone(),
            content: self.content.clone(),
            created_at: self.created_at.clone(),
            updated_at: self.updated_at.clone(),
        }
    }
}

#[derive(Clone, Debug)]
pub struct CreateMemoRequest {
    pub title: String,
    pub content: String,
}

#[derive(Clone, Debug)]
pub struct UpdateMemoRequest {
    pub id: i32,
    pub title: String,
    pub content: String,
}

/// Why an operation of the store failed.
#[derive(Clone, Debug)]
pub enum MemoError {
    /// The stored rows could not be taken over: the store was not opened.
    Initialization(String),
    /// The table could not be read or written.
    Storage(String),
    /// No memo has the identifier that an update named.
    NotFound,
}

impl MemoError {
    /// The human-readable cause.
    pub fn message(&self) -> (r: String)
        ensures
            self matches MemoError::Initialization(m) ==> r@ == m@,
            self matches MemoError::Storage(m) ==> r@ == m@,
            self is NotFound ==> r@ == "指定されたIDのメモが見つかりません"@,
    {
        match self {
            MemoError::Initialization(m) => m.clone(),
            MemoError::Storage(m) => m.clone(),
            MemoError::NotFound => String::from_str("指定されたIDのメモが見つかりません"),
        }
    }
}

/// Aggregate figures on the store.
#[derive(Clone, Debug)]
pub struct DatabaseStats {
    pub total_memos: usize,
    pub database_path: String,
    pub database_size: u64,
}

pub open spec fn memo_views(v: Seq<Memo>) -> Seq<MemoView> {
    v.map_values(|m: Memo| m@)
}

pub open spec fn option_view(o: Option<Memo>) -> Option<MemoView> {
    match o {
        Some(m) => Some(m@),
        None => None,
    }
}

/// Places `m` after every memo of `s` updated at the same time or later,
/// before the rest.
pub open spec fn insert_by_recency(s: Seq<MemoView>, m: MemoView) -> Seq<MemoView>
    decreases s.len(),
{
    if s.len() == 0 {
        seq![m]
    } else if !text_lt(s[0].updated_at, m.updated_at) {
        seq![s[0]] + insert_by_recency(s.drop_first(), m)
    } else {
        seq![m] + s
    }
}

/// The memos by `updated_at`, most recent first; memos updated at the same
/// time keep their order in `s`.
pub open spec fn by_recency(s: Seq<MemoView>) -> Seq<MemoView>
    decreases s.len(),
{
    if s.len() == 0 {
        seq![]
    } else {
        insert_by_recency(by_recency(s.drop_last()), s.last())
    }
}

pub open spec fn memo_matches(m: MemoView, pattern: Seq<char>) -> bool {
    like_match(pattern, m.title) || like_match(pattern, m.content)
}

/// The memos of `s` whose title or content matches `pattern`, in order.
pub open spec fn matching(s: Seq<MemoView>, pattern: Seq<char>) -> Seq<MemoView>
    decreases s.len(),
{
    if s.len() == 0 {
        seq![]
    } else if memo_matches(s.last(), pattern) {
        matching(s.drop_last(), pattern).push(s.last())
    } else {
        matching(s.drop_last(), pattern)
    }
}

/// The table: its rows in the order of their identifiers, and the
/// identifier that the next memo will get.
pub struct TableView {
    pub rows: Seq<MemoView>,
    pub next_id: int,
}

impl TableView {
    /// Every row has an identifier below `next_id`, and identifiers rise
    /// strictly along the rows, so that none repeats.
    pub open spec fn wf(self) -> bool {
        &&& 1 <= self.next_id <= i32::MAX + 1
        &&& forall|i: int|
            0 <= i < self.rows.len() ==> {
                &&& #[trigger] self.rows[i].id is Some
                &&& 0 < self.rows[i].id->0 < self.next_id
            }
        &&& forall|i: int, j: int|
            0 <= i < j < self.rows.len() ==> #[trigger] self.rows[i].id->0
                < #[trigger] self.rows[j].id->0
    }

    pub open spec fn has(self, id: i32) -> bool {
        exists|i: int| 0 <= i < self.rows.len() && self.rows[i].id == Some(id)
    }

    pub open spec fn index_of(self, id: i32) -> int {
        choose|i: int| 0 <= i < self.rows.len() && self.rows[i].id == Some(id)
    }

    pub open spec fn lookup(self, id: i32) -> Option<MemoView> {
        if self.has(id) {
            Some(self.rows[self.index_of(id)])
        } else {
            None
        }
    }

    /// `id` was given out once and no memo has it any more.
    pub open spec fn retired(self, id: i32) -> bool {
        !self.has(id) && 0 < id < self.next_id
    }

    /// No identifier is left for another memo.
    pub open spec fn is_full(self) -> bool {
        self.next_id > i32::MAX
    }

    pub open spec fn new_memo(self, title: Seq<char>, content: Seq<char>, now: Seq<char>) -> MemoView {
        MemoView {
            id: Some(self.next_id as i32),
            title: title,
            content: content,
            created_at: now,
            updated_at: now,
        }
    }

    pub open spec fn created(self, title: Seq<char>, content: Seq<char>, now: Seq<char>) -> TableView {
        TableView {
            rows: self.rows.push(self.new_memo(title, content, now)),
            next_id: self.next_id + 1,
        }
    }

    pub open spec fn updated(self, id: i32, title: Seq<char>, content: Seq<char>, now: Seq<char>) -> TableView {
        if self.has(id) {
            let i = self.index_of(id);
            let m = self.rows[i];
            TableView {
                rows: self.rows.update(
                    i,
                    MemoView {
                        id: m.id,
                        title: title,
                        content: content,
                        created_at: m.created_at,
                        updated_at: now,
                    },
                ),
                next_id: self.next_id,
            }
        } else {
            self
        }
    }

    pub open spec fn deleted(self, id: i32) -> TableView {
        if self.has(id) {
            TableView { rows: self.rows.remove(self.index_of(id)), next_id: self.next_id }
        } else {
            self
        }
    }

    /// All memos, most recently updated first.
    pub open spec fn listing(self) -> Seq<MemoView> {
        by_recency(self.rows)
    }

    /// The memos whose title or content holds `q`, read as a `LIKE`
    /// pattern, most recently updated first.
    pub open spec fn search_results(self, q: Seq<char>) -> Seq<MemoView> {
        by_recency(matching(self.rows, contains_pattern(q)))
    }
}

/// In a well-formed table an identifier names at most one row.
pub proof fn lemma_index_unique(s: TableView, id: i32, i: int)
    requires
        s.wf(),
        0 <= i < s.rows.len(),
        s.rows[i].id == Some(id),
    ensures
        s.has(id),
        s.index_of(id) == i,
        s.lookup(id) == Some(s.rows[i]),
{
    assert(s.has(id));
    let k = s.index_of(id);
    assert(s.rows[k].id == Some(id));
    if k < i {
        assert(s.rows[k].id->0 < s.rows[i].id->0);
    } else if i < k {
        assert(s.rows[i].id->0 < s.rows[k].id->0);
    }
}

proof fn lemma_created_wf(s: TableView, title: Seq<char>, content: Seq<char>, now: Seq<char>)
    requires
        s.wf(),
        !s.is_full(),
    ensures
        s.created(title, content, now).wf(),
{
    let t = s.created(title, content, now);
    assert forall|i: int, j: int| 0 <= i < j < t.rows.len() implies #[trigger] t.rows[i].id->0
        < #[trigger] t.rows[j].id->0 by {
        if j < s.rows.len() {
            assert(s.rows[i].id->0 < s.rows[j].id->0);
        } else {
            assert(s.rows[i].id is Some);
        }
    }
    assert forall|i: int| 0 <= i < t.rows.len() implies {
        &&& #[trigger] t.rows[i].id is Some
        &&& 0 < t.rows[i].id->0 < t.next_id
    } by {
        if i < s.rows.len() {
            assert(s.rows[i].id is Some);
        }
    }
}

proof fn lemma_updated_wf(s: TableView, id: i32, title: Seq<char>, content: Seq<char>, now: Seq<char>)
    requires
        s.wf(),
    ensures
        s.updated(id, title, content, now).wf(),
        forall|i: int|
            0 <= i < s.rows.len() ==> #[trigger] s.updated(id, title, content, now).rows[i].id
                == s.rows[i].id,
        s.updated(id, title, content, now).rows.len() == s.rows.len(),
{
    let t = s.updated(id, title, content, now);
    if s.has(id) {
        let k = s.index_of(id);
        assert forall|i: int| 0 <= i < s.rows.len() implies #[trigger] t.rows[i].id
            == s.rows[i].id by {}
        assert forall|i: int, j: int| 0 <= i < j < t.rows.len() implies #[trigger] t.rows[i].id->0
            < #[trigger] t.rows[j].id->0 by {
            assert(s.rows[i].id->0 < s.rows[j].id->0);
        }
        assert forall|i: int| 0 <= i < t.rows.len() implies {
            &&& #[trigger] t.rows[i].id is Some
            &&& 0 < t.rows[i].id->0 < t.next_id
        } by {
            assert(s.rows[i].id is Some);
        }
    }
}

proof fn lemma_deleted_wf(s: TableView, id: i32)
    requires
        s.wf(),
    ensures
        s.deleted(id).wf(),
{
    let t = s.deleted(id);
    if s.has(id) {
        let k = s.index_of(id);
        assert forall|i: int, j: int| 0 <= i < j < t.rows.len() implies #[trigger] t.rows[i].id->0
            < #[trigger] t.rows[j].id->0 by {
            let a = if i < k { i } else { i + 1 };
            let b = if j < k { j } else { j + 1 };
            assert(t.rows[i] == s.rows[a]);
            assert(t.rows[j] == s.rows[b]);
            assert(s.rows[a].id->0 < s.rows[b].id->0);
        }
        assert forall|i: int| 0 <= i < t.rows.len() implies {
            &&& #[trigger] t.rows[i].id is Some
            &&& 0 < t.rows[i].id->0 < t.next_id
        } by {
            let a = if i < k { i } else { i + 1 };
            assert(t.rows[i] == s.rows[a]);
            assert(s.rows[a].id is Some);
        }
    }
}


proof fn lemma_insert_at(s: Seq<MemoView>, m: MemoView, k: int)
    requires
        0 <= k <= s.len(),
        forall|a: int| 0 <= a < k ==> !text_lt(#[trigger] s[a].updated_at, m.updated_at),
        k < s.len() ==> text_lt(s[k].updated_at, m.updated_at),
    ensures
        insert_by_recency(s, m) == s.insert(k, m),
    decreases k,
{
    if k == 0 {
        assert(insert_by_recency(s, m) =~= s.insert(k, m));
    } else {
        assert(!text_lt(s[0].updated_at, m.updated_at));
        let r = s.drop_first();
        assert forall|a: int| 0 <= a < k - 1 implies !text_lt(#[trigger] r[a].updated_at, m.updated_at) by {
            assert(r[a] == s[a + 1]);
        }
        lemma_insert_at(r, m, k - 1);
        assert(insert_by_recency(s, m) =~= s.insert(k, m));
    }
}

proof fn lemma_insert_len(s: Seq<MemoView>, m: MemoView)
    ensures
        insert_by_recency(s, m).len() == s.len() + 1,
    decreases s.len(),
{
    if s.len() > 0 && !text_lt(s[0].updated_at, m.updated_at) {
        lemma_insert_len(s.drop_first(), m);
    }
}

proof fn lemma_by_recency_len(s: Seq<MemoView>)
    ensures
        by_recency(s).len() == s.len(),
    decreases s.len(),
{
    if s.len() > 0 {
        lemma_by_recency_len(s.drop_last());
        lemma_insert_len(by_recency(s.drop_last()), s.last());
    }
}

/// The memos of `v`, most recently updated first.
fn sort_by_recency(v: &Vec<Memo>) -> (r: Vec<Memo>)
    ensures
        memo_views(r@) == by_recency(memo_views(v@)),
{
    let mut r: Vec<Memo> = Vec::new();
    let mut i: usize = 0;
    assert(memo_views(v@).subrange(0, 0) =~= Seq::<MemoView>::empty());
    while i < v.len()
        invariant
            i <= v.len(),
            memo_views(r@) == by_recency(memo_views(v@).subrange(0, i as int)),
        decreases v.len() - i,
    {
        let m = v[i].copy();
        let ghost sv = memo_views(r@);
        let mut k: usize = 0;
        while k < r.len() && !text_less(r[k].updated_at.as_str(), m.updated_at.as_str())
            invariant
                k <= r.len(),
                sv == memo_views(r@),
                forall|a: int| 0 <= a < k ==> !text_lt(#[trigger] sv[a].updated_at, m@.updated_at),
            decreases r.len() - k,
        {
            k = k + 1;
        }
        proof {
            lemma_insert_at(sv, m@, k as int);
            let w = memo_views(v@).subrange(0, i + 1);
            assert(w.drop_last() =~= memo_views(v@).subrange(0, i as int));
            assert(w.last() == m@);
        }
        r.insert(k, m);
        assert(memo_views(r@) =~= sv.insert(k as int, m@));
        i = i + 1;
    }
    assert(memo_views(v@).subrange(0, v.len() as int) =~= memo_views(v@));
    r
}

/// Relies on std's `SystemTime::now` and `SystemTime::duration_since`
/// against `UNIX_EPOCH`: the time now as whole seconds and nanoseconds since
/// 1970, or `None` for a clock set before 1970. It depends on the clock, so
/// nothing more is stated of it.
#[verifier::external_body]
fn unix_time_now() -> (r: Option<(u64, u32)>)
    ensures
        r matches Some(t) ==> t.1 < 1_000_000_000,
{
    std::time::SystemTime::now().duration_since(std::time::UNIX_EPOCH).ok().map(
        |d| (d.as_secs(), d.subsec_nanos()),
    )
}

/// Relies on chrono's `DateTime::<Utc>::from_timestamp`, which gives `None`
/// for a time out of its range, and `DateTime::to_rfc3339`, which writes
/// into a `String` and so cannot fail: the time, in UTC, as RFC 3339 text.
#[verifier::external_body]
fn rfc3339_at(secs: i64, nanos: u32) -> (r: Option<String>) {
    chrono::DateTime::<chrono::Utc>::from_timestamp(secs, nanos).map(|t| t.to_rfc3339())
}

/// The current UTC time as RFC 3339 text, or `None` where the clock cannot
/// be read or lies outside the range of dates.
fn now_rfc3339() -> (r: Option<String>) {
    match unix_time_now() {
        Some(t) => {
            if t.0 <= i64::MAX as u64 {
                rfc3339_at(t.0 as i64, t.1)
            } else {
                None
            }
        },
        None => None,
    }
}

/// The memo store: where its file lives, and the table.
pub struct DatabaseService {
    db_path: String,
    rows: Vec<Memo>,
    next_id: i64,
}

impl View for DatabaseService {
    type V = TableView;

    closed spec fn view(&self) -> TableView {
        TableView { rows: memo_views(self.rows@), next_id: self.next_id as int }
    }
}

impl DatabaseService {
    pub closed spec fn path(&self) -> Seq<char> {
        self.db_path@
    }

    pub open spec fn wf(&self) -> bool {
        self@.wf()
    }

    /// An empty store whose file is `db_path`.
    pub fn new(db_path: String) -> (r: Self)
        ensures
            r.wf(),
            r@.rows == Seq::<MemoView>::empty(),
            r@.next_id == 1,
            r.path() == db_path@,
    {
        let r = DatabaseService { db_path, rows: Vec::new(), next_id: 1 };
        assert(r@.rows =~= Seq::<MemoView>::empty());
        r
    }

    /// A store over rows read back from its file, in the order of their
    /// identifiers, with the identifier that the next memo will get. The
    /// rows are refused unless every one carries an identifier, identifiers
    /// rise strictly, and all are positive and below `next_id`.
    pub fn from_rows(db_path: String, rows: Vec<Memo>, next_id: i64) -> (r: Result<Self, MemoError>)
        ensures
            r is Ok <==> (TableView { rows: memo_views(rows@), next_id: next_id as int }).wf(),
            r matches Ok(s) ==> s.wf() && s@ == (TableView {
                rows: memo_views(rows@),
                next_id: next_id as int,
            }) && s.path() == db_path@,
            r matches Err(e) ==> e is Initialization,
    {
        let ghost sv = TableView { rows: memo_views(rows@), next_id: next_id as int };
        if next_id < 1 || next_id > i32::MAX as i64 + 1 {
            return Err(MemoError::Initialization(String::from_str("保存されたメモの採番が不正です")));
        }
        let mut i: usize = 0;
        while i < rows.len()
            invariant
                sv == (TableView { rows: memo_views(rows@), next_id: next_id as int }),
                1 <= next_id <= i32::MAX + 1,
                i <= rows.len(),
                forall|a: int|
                    0 <= a < i ==> {
                        &&& #[trigger] sv.rows[a].id is Some
                        &&& 0 < sv.rows[a].id->0 < next_id
                    },
                forall|a: int, b: int|
                    0 <= a < b < i ==> #[trigger] sv.rows[a].id->0 < #[trigger] sv.rows[b].id->0,
            decreases rows.len() - i,
        {
            let ok = match rows[i].id {
                Some(id) => 0 < id && (id as i64) < next_id && (i == 0 || match rows[i - 1].id {
                    Some(prev) => prev < id,
                    None => false,
                }),
                None => false,
            };
            if !ok {
                proof {
                    assert(sv.rows[i as int] == rows@[i as int]@);
                    if i > 0 {
                        assert(sv.rows[i - 1] == rows@[i - 1]@);
                    }
                }
                return Err(MemoError::Initialization(String::from_str("保存されたメモの識別子が不正です")));
            }
            proof {
                assert(sv.rows[i as int] == rows@[i as int]@);
                assert forall|a: int, b: int| 0 <= a < b < i + 1 implies #[trigger] sv.rows[a].id->0
                    < #[trigger] sv.rows[b].id->0 by {
                    if b == i && a < i - 1 {
                        assert(sv.rows[a].id->0 < sv.rows[i - 1].id->0);
                    }
                }
            }
            i = i + 1;
        }
        Ok(DatabaseService { db_path, rows, next_id })
    }

    /// The file that holds the store.
    pub fn db_path(&self) -> (r: &String)
        ensures
            r@ == self.path(),
    {
        &self.db_path
    }

    /// The position of the row with identifier `id`.
    fn position(&self, id: i32) -> (r: Option<usize>)
        requires
            self.wf(),
        ensures
            r is Some <==> self@.has(id),
            r matches Some(i) ==> i < self.rows.len() && i == self@.index_of(id),
    {
        let mut i: usize = 0;
        while i < self.rows.len()
            invariant
                self.wf(),
                i <= self.rows.len(),
                forall|a: int| 0 <= a < i ==> (#[trigger] self@.rows[a]).id != Some(id),
            decreases self.rows.len() - i,
        {
            if self.rows[i].id == Some(id) {
                proof {
                    assert(self@.rows[i as int] == self.rows@[i as int]@);
                    lemma_index_unique(self@, id, i as int);
                }
                return Some(i);
            }
            assert(self@.rows[i as int] == self.rows@[i as int]@);
            i = i + 1;
        }
        None
    }

    /// Stores a memo stamped `now` as both its creation and update time,
    /// under the next identifier; fails when none is left.
    pub fn create_memo_at(&mut self, request: CreateMemoRequest, now: String) -> (r: Result<Memo, MemoError>)
        requires
            old(self).wf(),
        ensures
            final(self).wf(),
            r is Ok <==> !old(self)@.is_full(),
            r matches Ok(m) ==> m@ == old(self)@.new_memo(request.title@, request.content@, now@)
                && final(self)@ == old(self)@.created(request.title@, request.content@, now@)
                && m.id == Some(old(self)@.next_id as i32) && final(self)@.lookup(
                old(self)@.next_id as i32,
            ) == Some(m@),
            r matches Err(e) ==> e is Storage && final(self)@ == old(self)@,
            final(self).path() == old(self).path(),
    {
        if self.next_id > i32::MAX as i64 {
            return Err(MemoError::Storage(String::from_str("メモの識別子が上限に達しました")));
        }
        let memo = Memo {
            id: Some(self.next_id as i32),
            title: request.title,
            content: request.content,
            created_at: now.clone(),
            updated_at: now,
        };
        proof {
            lemma_created_wf(self@, memo.title@, memo.content@, memo.created_at@);
            law_create_then_lookup(self@, memo.title@, memo.content@, memo.created_at@);
        }
        self.rows.push(memo.copy());
        self.next_id = self.next_id + 1;
        assert(self@.rows =~= old(self)@.rows.push(memo@));
        Ok(memo)
    }

    /// Stores a memo stamped with the current time; fails with `Storage`
    /// when no identifier is left or the clock cannot be read, and then
    /// changes nothing.
    pub fn create_memo(&mut self, request: CreateMemoRequest) -> (r: Result<Memo, MemoError>)
        requires
            old(self).wf(),
        ensures
            final(self).wf(),
            old(self)@.is_full() ==> r is Err,
            r matches Ok(m) ==> m.created_at@ == m.updated_at@
                && m@ == old(self)@.new_memo(request.title@, request.content@, m.created_at@)
                && final(self)@ == old(self)@.created(request.title@, request.content@, m.created_at@)
                && m.id == Some(old(self)@.next_id as i32) && final(self)@.lookup(
                old(self)@.next_id as i32,
            ) == Some(m@),
            r matches Err(e) ==> e is Storage && final(self)@ == old(self)@,
            final(self).path() == old(self).path(),
    {
        match now_rfc3339() {
            Some(now) => self.create_memo_at(request, now),
            None => {
                if self.next_id > i32::MAX as i64 {
                    Err(MemoError::Storage(String::from_str("メモの識別子が上限に達しました")))
                } else {
                    Err(MemoError::Storage(String::from_str("現在時刻の取得に失敗しました")))
                }
            },
        }
    }

    /// Every memo, most recently updated first.
    pub fn get_all_memos(&self) -> (r: Result<Vec<Memo>, MemoError>)
        ensures
            r matches Ok(v) && memo_views(v@) == self@.listing(),
    {
        Ok(sort_by_recency(&self.rows))
    }

    /// The memo with identifier `id`, if there is one.
    pub fn get_memo_by_id(&self, id: i32) -> (r: Result<Option<Memo>, MemoError>)
        requires
            self.wf(),
        ensures
            r matches Ok(o) && option_view(o) == self@.lookup(id),
    {
        match self.position(id) {
            Some(i) => {
                assert(self@.rows[i as int] == self.rows@[i as int]@);
                Ok(Some(self.rows[i].copy()))
            },
            None => Ok(None),
        }
    }

    /// Replaces the title and content of memo `request.id` and stamps it
    /// `now` as its update time; fails with `NotFound` when there is no such
    /// memo, and then changes nothing.
    pub fn update_memo_at(&mut self, request: UpdateMemoRequest, now: String) -> (r: Result<Memo, MemoError>)
        requires
            old(self).wf(),
        ensures
            final(self).wf(),
            r is Ok <==> old(self)@.has(request.id),
            r matches Ok(m) ==> final(self)@ == old(self)@.updated(
                request.id,
                request.title@,
                request.content@,
                now@,
            ) && final(self)@.lookup(request.id) == Some(m@) && m.created_at@ == old(
                self,
            )@.lookup(request.id)->0.created_at,
            r matches Err(e) ==> e is NotFound && final(self)@ == old(self)@,
            final(self).path() == old(self).path(),
    {
        match self.position(request.id) {
            None => Err(MemoError::NotFound),
            Some(i) => {
                let ghost s0 = self@;
                assert(s0.rows[i as int] == self.rows@[i as int]@);
                let memo = Memo {
                    id: self.rows[i].id,
                    title: request.title,
                    content: request.content,
                    created_at: self.rows[i].created_at.clone(),
                    updated_at: now,
                };
                self.rows.set(i, memo.copy());
                proof {
                    assert(self@.rows =~= s0.updated(request.id, memo.title@, memo.content@, now@).rows);
                    lemma_updated_wf(s0, request.id, memo.title@, memo.content@, now@);
                    lemma_index_unique(self@, request.id, i as int);
                }
                Ok(memo)
            },
        }
    }

    /// Updates memo `request.id`, stamped with the current time; fails with
    /// `NotFound` when there is no such memo, with `Storage` when the clock
    /// cannot be read, and then changes nothing.
    pub fn update_memo(&mut self, request: UpdateMemoRequest) -> (r: Result<Memo, MemoError>)
        requires
            old(self).wf(),
        ensures
            final(self).wf(),
            r is Ok ==> old(self)@.has(request.id),
            r matches Ok(m) ==> final(self)@ == old(self)@.updated(
                request.id,
                request.title@,
                request.content@,
                m.updated_at@,
            ) && final(self)@.lookup(request.id) == Some(m@) && m.created_at@ == old(
                self,
            )@.lookup(request.id)->0.created_at,
            !old(self)@.has(request.id) ==> (r matches Err(e) && e is NotFound),
            r matches Err(e) ==> (e is NotFound || e is Storage) && final(self)@ == old(self)@,
            old(self)@.has(request.id) && r is Err ==> r->Err_0 is Storage,
            final(self).path() == old(self).path(),
    {
        match now_rfc3339() {
            Some(now) => self.update_memo_at(request, now),
            None => match self.position(request.id) {
                None => Err(MemoError::NotFound),
                Some(_) => Err(MemoError::Storage(String::from_str("現在時刻の取得に失敗しました"))),
            },
        }
    }

    /// Removes memo `id`; tells whether there was one.
    pub fn delete_memo(&mut self, id: i32) -> (r: Result<bool, MemoError>)
        requires
            old(self).wf(),
        ensures
            final(self).wf(),
            r == Ok::<bool, MemoError>(old(self)@.has(id)),
            final(self)@ == old(self)@.deleted(id),
            !final(self)@.has(id),
            old(self)@.has(id) ==> final(self)@.retired(id),
            final(self).path() == old(self).path(),
    {
        let ghost s0 = self@;
        proof {
            lemma_deleted_wf(s0, id);
            law_delete_is_final(s0, id);
        }
        match self.position(id) {
            None => Ok(false),
            Some(i) => {
                self.rows.remove(i);
                assert(self@.rows =~= s0.rows.remove(i as int));
                Ok(true)
            },
        }
    }

    /// The memos whose title or content holds `query`, most recently
    /// updated first. `%` and `_` in `query` act as wildcards, and ASCII
    /// letters match either case.
    pub fn search_memos(&self, query: &str) -> (r: Result<Vec<Memo>, MemoError>)
        ensures
            r matches Ok(v) && memo_views(v@) == self@.search_results(query@),
    {
        let mut pattern: Vec<char> = Vec::new();
        pattern.push('%');
        let q = chars_of(query);
        let mut k: usize = 0;
        while k < q.len()
            invariant
                k <= q.len(),
                pattern@ == seq!['%'] + q@.subrange(0, k as int),
            decreases q.len() - k,
        {
            pattern.push(q[k]);
            k = k + 1;
            assert(pattern@ =~= seq!['%'] + q@.subrange(0, k as int));
        }
        pattern.push('%');
        assert(pattern@ =~= contains_pattern(query@));
        let mut found: Vec<Memo> = Vec::new();
        let mut i: usize = 0;
        assert(memo_views(self.rows@).subrange(0, 0) =~= Seq::<MemoView>::empty());
        while i < self.rows.len()
            invariant
                i <= self.rows.len(),
                pattern@ == contains_pattern(query@),
                memo_views(found@) == matching(memo_views(self.rows@).subrange(0, i as int), pattern@),
            decreases self.rows.len() - i,
        {
            let m = &self.rows[i];
            let hit = like(&pattern, &chars_of(m.title.as_str())) || like(
                &pattern,
                &chars_of(m.content.as_str()),
            );
            proof {
                let w = memo_views(self.rows@).subrange(0, i + 1);
                assert(w.drop_last() =~= memo_views(self.rows@).subrange(0, i as int));
                assert(w.last() == m@);
            }
            if hit {
                let ghost before = memo_views(found@);
                found.push(m.copy());
                assert(memo_views(found@) =~= before.push(m@));
            }
            i = i + 1;
        }
        assert(memo_views(self.rows@).subrange(0, self.rows.len() as int) =~= memo_views(self.rows@));
        Ok(sort_by_recency(&found))
    }

    /// The number of memos, the store's file, and `database_size`, the size
    /// of that file in bytes (0 where it does not exist yet).
    pub fn get_database_stats(&self, database_size: u64) -> (r: Result<DatabaseStats, MemoError>)
        ensures
            r matches Ok(st) && st.total_memos == self@.rows.len() && st.database_path@
                == self.path() && st.database_size == database_size,
    {
        Ok(DatabaseStats {
            total_memos: self.rows.len(),
            database_path: self.db_path.clone(),
            database_size,
        })
    }
}


/// A memo just created is found under its identifier, with the title and
/// content it was given and equal creation and update times.
pub proof fn law_create_then_lookup(s: TableView, title: Seq<char>, content: Seq<char>, now: Seq<char>)
    requires
        s.wf(),
        !s.is_full(),
    ensures
        s.created(title, content, now).wf(),
        s.created(title, content, now).lookup(s.next_id as i32) == Some(s.new_memo(title, content, now)),
        s.new_memo(title, content, now).title == title,
        s.new_memo(title, content, now).content == content,
        s.new_memo(title, content, now).created_at == s.new_memo(title, content, now).updated_at,
{
    lemma_created_wf(s, title, content, now);
    let t = s.created(title, content, now);
    lemma_index_unique(t, s.next_id as i32, s.rows.len() as int);
}

/// Updating a memo keeps its identifier and creation time; when the update
/// is stamped no earlier than the memo's creation, its update time is not
/// earlier than its creation time.
pub proof fn law_update_keeps_creation(
    s: TableView,
    id: i32,
    title: Seq<char>,
    content: Seq<char>,
    now: Seq<char>,
)
    requires
        s.wf(),
        s.has(id),
        !text_lt(now, s.lookup(id)->0.created_at),
    ensures
        s.updated(id, title, content, now).lookup(id) is Some,
        s.updated(id, title, content, now).lookup(id)->0.id == Some(id),
        s.updated(id, title, content, now).lookup(id)->0.created_at == s.lookup(id)->0.created_at,
        s.updated(id, title, content, now).lookup(id)->0.title == title,
        s.updated(id, title, content, now).lookup(id)->0.content == content,
        !text_lt(
            s.updated(id, title, content, now).lookup(id)->0.updated_at,
            s.updated(id, title, content, now).lookup(id)->0.created_at,
        ),
{
    let i = s.index_of(id);
    lemma_updated_wf(s, id, title, content, now);
    let t = s.updated(id, title, content, now);
    assert(t.rows[i].id == Some(id));
    lemma_index_unique(t, id, i);
}

/// Once a memo is deleted it is not found any more, and deleting it again
/// finds nothing to remove and changes nothing.
pub proof fn law_delete_is_final(s: TableView, id: i32)
    requires
        s.wf(),
    ensures
        s.deleted(id).lookup(id) is None,
        !s.deleted(id).has(id),
        s.deleted(id).deleted(id) == s.deleted(id),
        s.has(id) ==> s.deleted(id).retired(id),
{
    if s.has(id) {
        let k = s.index_of(id);
        assert(s.rows[k].id is Some);
        let t = s.deleted(id);
        if t.has(id) {
            let j = t.index_of(id);
            let a = if j < k { j } else { j + 1 };
            assert(t.rows[j] == s.rows[a]);
            assert(s.rows[k].id == Some(id));
            if a < k {
                assert(s.rows[a].id->0 < s.rows[k].id->0);
            } else {
                assert(s.rows[k].id->0 < s.rows[a].id->0);
            }
        }
    }
}

/// The listing holds exactly as many memos as the table, whatever was
/// created or deleted before: the statistics count what the listing shows.
pub proof fn law_count_matches_listing(s: TableView)
    ensures
        s.listing().len() == s.rows.len(),
{
    lemma_by_recency_len(s.rows);
}

/// Identifiers are never given out twice: once a memo is gone, creating,
/// updating or deleting memos never brings its identifier back.
pub proof fn law_retired_id_stays_absent(
    s: TableView,
    id: i32,
    other: i32,
    title: Seq<char>,
    content: Seq<char>,
    now: Seq<char>,
)
    requires
        s.wf(),
        s.retired(id),
    ensures
        !s.is_full() ==> s.created(title, content, now).retired(id),
        s.updated(other, title, content, now).retired(id),
        s.deleted(other).retired(id),
{
    let c = s.created(title, content, now);
    if c.has(id) {
        let i = choose|i: int| 0 <= i < c.rows.len() && c.rows[i].id == Some(id);
        if i < s.rows.len() {
            assert(s.rows[i].id == Some(id));
        }
    }
    lemma_updated_wf(s, other, title, content, now);
    let u = s.updated(other, title, content, now);
    if u.has(id) {
        let i = choose|i: int| 0 <= i < u.rows.len() && u.rows[i].id == Some(id);
        assert(s.rows[i].id == u.rows[i].id);
    }
    let d = s.deleted(other);
    if d.has(id) {
        let i = choose|i: int| 0 <= i < d.rows.len() && d.rows[i].id == Some(id);
        if s.has(other) {
            let k = s.index_of(other);
            let a = if i < k { i } else { i + 1 };
            assert(d.rows[i] == s.rows[a]);
        } else {
            assert(s.rows[i].id == Some(id));
        }
    }
}

proof fn lemma_text_lt_asymmetric(a: Seq<char>, b: Seq<char>)
    requires
        text_lt(a, b),
    ensures
        !text_lt(b, a),
    decreases a.len(),
{
    if a.len() > 0 && b.len() > 0 && a[0] == b[0] {
        lemma_text_lt_asymmetric(a.drop_first(), b.drop_first());
    }
}

proof fn lemma_insert_all_before(s: Seq<MemoView>, m: MemoView, t: Seq<char>)
    requires
        forall|i: int| 0 <= i < s.len() ==> text_lt(#[trigger] s[i].updated_at, t),
        text_lt(m.updated_at, t),
    ensures
        forall|i: int|
            0 <= i < insert_by_recency(s, m).len() ==> text_lt(
                #[trigger] insert_by_recency(s, m)[i].updated_at,
                t,
            ),
    decreases s.len(),
{
    lemma_insert_len(s, m);
    if s.len() > 0 && !text_lt(s[0].updated_at, m.updated_at) {
        let r = s.drop_first();
        assert forall|i: int| 0 <= i < r.len() implies text_lt(#[trigger] r[i].updated_at, t) by {
            assert(r[i] == s[i + 1]);
        }
        lemma_insert_all_before(r, m, t);
        let x = insert_by_recency(s, m);
        assert forall|i: int| 0 <= i < x.len() implies text_lt(#[trigger] x[i].updated_at, t) by {
            if i > 0 {
                assert(x[i] == insert_by_recency(r, m)[i - 1]);
            }
        }
    } else if s.len() > 0 {
        let x = insert_by_recency(s, m);
        assert forall|i: int| 0 <= i < x.len() implies text_lt(#[trigger] x[i].updated_at, t) by {
            if i > 0 {
                assert(x[i] == s[i - 1]);
            }
        }
    }
}

proof fn lemma_by_recency_all_before(s: Seq<MemoView>, t: Seq<char>)
    requires
        forall|i: int| 0 <= i < s.len() ==> text_lt(#[trigger] s[i].updated_at, t),
    ensures
        forall|i: int|
            0 <= i < by_recency(s).len() ==> text_lt(#[trigger] by_recency(s)[i].updated_at, t),
    decreases s.len(),
{
    if s.len() > 0 {
        let p = s.drop_last();
        assert forall|i: int| 0 <= i < p.len() implies text_lt(#[trigger] p[i].updated_at, t) by {
            assert(p[i] == s[i]);
        }
        lemma_by_recency_all_before(p, t);
        lemma_insert_all_before(by_recency(p), s.last(), t);
    }
}

/// A memo updated strictly later than every other memo heads the listing.
proof fn lemma_latest_heads_listing(s: Seq<MemoView>, k: int)
    requires
        0 <= k < s.len(),
        forall|j: int| 0 <= j < s.len() && j != k ==> text_lt(#[trigger] s[j].updated_at, s[k].updated_at),
    ensures
        by_recency(s).len() > 0,
        by_recency(s)[0] == s[k],
    decreases s.len(),
{
    let p = s.drop_last();
    let m = s.last();
    lemma_by_recency_len(p);
    if k == s.len() - 1 {
        assert forall|i: int| 0 <= i < p.len() implies text_lt(#[trigger] p[i].updated_at, m.updated_at) by {
            assert(p[i] == s[i]);
        }
        lemma_by_recency_all_before(p, m.updated_at);
        let bp = by_recency(p);
        if bp.len() > 0 {
            assert(text_lt(bp[0].updated_at, m.updated_at));
        }
    } else {
        assert forall|j: int| 0 <= j < p.len() && j != k implies text_lt(
            #[trigger] p[j].updated_at,
            p[k].updated_at,
        ) by {
            assert(p[j] == s[j]);
        }
        lemma_latest_heads_listing(p, k);
        assert(text_lt(m.updated_at, s[k].updated_at));
        lemma_text_lt_asymmetric(m.updated_at, s[k].updated_at);
    }
}

/// An update stamped strictly later than every other memo's update time puts
/// the updated memo first in the listing.
pub proof fn law_latest_update_listed_first(
    s: TableView,
    id: i32,
    title: Seq<char>,
    content: Seq<char>,
    now: Seq<char>,
)
    requires
        s.wf(),
        s.has(id),
        forall|i: int|
            0 <= i < s.rows.len() && s.rows[i].id != Some(id) ==> text_lt(
                #[trigger] s.rows[i].updated_at,
                now,
            ),
    ensures
        s.updated(id, title, content, now).listing().len() > 0,
        Some(s.updated(id, title, content, now).listing()[0]) == s.updated(
            id,
            title,
            content,
            now,
        ).lookup(id),
{
    let k = s.index_of(id);
    lemma_updated_wf(s, id, title, content, now);
    let t = s.updated(id, title, content, now);
    assert forall|j: int| 0 <= j < t.rows.len() && j != k implies text_lt(
        #[trigger] t.rows[j].updated_at,
        t.rows[k].updated_at,
    ) by {
        assert(t.rows[j] == s.rows[j]);
        if s.rows[j].id == Some(id) {
            lemma_index_unique(s, id, j);
        }
    }
    lemma_latest_heads_listing(t.rows, k);
    assert(t.rows[k].id == Some(id));
    lemma_index_unique(t, id, k);
}

} // verus!
