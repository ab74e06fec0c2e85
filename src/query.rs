//! Read queries over the ingested blocks: transaction search by signature
//! and by calendar day.

use crate::day::{day_start, day_start_secs, lemma_day_start_bounds, SEC_PER_DAY};
use vstd::prelude::*;
use vstd::string::StringSliceAdditionalSpecFns;

verus! {

/// The message of a JSON-encoded transaction.
pub enum TransactionMessage {
    /// A message with parsed accounts: the public key of each account.
    Parsed { recent_blockhash: String, account_keys: Vec<String> },
    /// A raw message: its account keys as written.
    Raw { recent_blockhash: String, account_keys: Vec<String> },
}

/// A transaction of a block, in the encoding the block was fetched with.
pub enum EncodedTransaction {
    /// JSON encoding: the signatures and the message.
    Json { signatures: Vec<String>, message: TransactionMessage },
    /// The accounts list: the signatures and the account keys.
    Accounts { signatures: Vec<String>, account_keys: Vec<String> },
    /// A binary encoding, whose fields are not read.
    Binary,
}

/// A fetched block: its transactions, in order, and its time in epoch
/// seconds, if known.
pub struct BlockRecord {
    pub transactions: Vec<EncodedTransaction>,
    pub block_time: Option<i64>,
}

/// The position of a transaction: its block's index among the blocks
/// searched (from 0), and its index within that block.
#[derive(Clone, Copy, Debug, PartialEq, Eq, Structural)]
pub struct TxPos {
    pub block: usize,
    pub index: usize,
}

/// What a search selects.
pub enum TxFilter {
    /// The transactions that carry this signature.
    Signature(String),
    /// The transactions of blocks whose time lies in `[lo, hi)`.
    Window { lo: i64, hi: i64 },
}

/// The meaning of a [`TxFilter`].
pub enum FilterSpec {
    Signature(Seq<char>),
    Window(int, int),
}

impl View for TxFilter {
    type V = FilterSpec;

    open spec fn view(&self) -> FilterSpec {
        match self {
            TxFilter::Signature(s) => FilterSpec::Signature(s@),
            TxFilter::Window { lo, hi } => FilterSpec::Window(*lo as int, *hi as int),
        }
    }
}

/// The signatures a transaction lists: none for a binary encoding.
pub open spec fn signatures_of(t: EncodedTransaction) -> Seq<Seq<char>> {
    match t {
        EncodedTransaction::Json { signatures, .. } => signatures.deep_view(),
        EncodedTransaction::Accounts { signatures, .. } => signatures.deep_view(),
        EncodedTransaction::Binary => Seq::empty(),
    }
}

/// Whether a transaction lists the signature `id`.
pub open spec fn has_signature(t: EncodedTransaction, id: Seq<char>) -> bool {
    signatures_of(t).contains(id)
}

/// The signatures, recent block hash and account keys of a JSON-encoded
/// transaction; empty for any other encoding.
pub open spec fn reduced(t: EncodedTransaction) -> (Seq<Seq<char>>, Seq<char>, Seq<Seq<char>>) {
    match t {
        EncodedTransaction::Json { signatures, message } => match message {
            TransactionMessage::Parsed { recent_blockhash, account_keys } => (
                signatures.deep_view(),
                recent_blockhash@,
                account_keys.deep_view(),
            ),
            TransactionMessage::Raw { recent_blockhash, account_keys } => (
                signatures.deep_view(),
                recent_blockhash@,
                account_keys.deep_view(),
            ),
        },
        _ => (Seq::empty(), Seq::empty(), Seq::empty()),
    }
}

/// Whether transaction `t` of block `b` is selected by `f`.
pub open spec fn selects(f: FilterSpec, b: BlockRecord, t: EncodedTransaction) -> bool {
    match f {
        FilterSpec::Signature(id) => has_signature(t, id),
        FilterSpec::Window(lo, hi) => match b.block_time {
            Some(time) => lo <= time && time < hi,
            None => false,
        },
    }
}

/// The positions of the selected transactions among the first `k` of
/// block `b`, which stands at index `bi`.
pub open spec fn block_hits(f: FilterSpec, b: BlockRecord, bi: int, k: int) -> Seq<TxPos>
    decreases k,
{
    if k <= 0 {
        Seq::empty()
    } else {
        let before = block_hits(f, b, bi, k - 1);
        if selects(f, b, b.transactions@[k - 1]) {
            before.push(TxPos { block: bi as usize, index: (k - 1) as usize })
        } else {
            before
        }
    }
}

/// The positions of the selected transactions of `blocks`, block by block
/// and in order within each block.
pub open spec fn hits(f: FilterSpec, blocks: Seq<BlockRecord>) -> Seq<TxPos>
    decreases blocks.len(),
{
    if blocks.len() == 0 {
        Seq::empty()
    } else {
        let last = blocks.last();
        hits(f, blocks.drop_last()) + block_hits(
            f,
            last,
            blocks.len() - 1,
            last.transactions@.len() as int,
        )
    }
}

/// Whether transaction position `p` exists in `blocks` and `f` selects it.
pub open spec fn selected_at(f: FilterSpec, blocks: Seq<BlockRecord>, p: TxPos) -> bool {
    &&& p.block < blocks.len()
    &&& p.index < blocks[p.block as int].transactions@.len()
    &&& selects(f, blocks[p.block as int], blocks[p.block as int].transactions@[p.index as int])
}

/// Whether `a` comes before `b`: an earlier block, or an earlier
/// transaction of the same block.
pub open spec fn pos_before(a: TxPos, b: TxPos) -> bool {
    a.block < b.block || (a.block == b.block && a.index < b.index)
}

proof fn lemma_block_hits(f: FilterSpec, b: BlockRecord, bi: int, k: int)
    requires
        0 <= bi <= usize::MAX,
        0 <= k <= b.transactions@.len() <= usize::MAX,
    ensures
        forall|x: int|
            0 <= x < block_hits(f, b, bi, k).len() ==> {
                let p = #[trigger] block_hits(f, b, bi, k)[x];
                &&& p.block == bi
                &&& p.index < k
                &&& selects(f, b, b.transactions@[p.index as int])
            },
        forall|j: int|
            0 <= j < k && selects(f, b, #[trigger] b.transactions@[j]) ==> block_hits(
                f,
                b,
                bi,
                k,
            ).contains(TxPos { block: bi as usize, index: j as usize }),
        forall|x: int, y: int|
            0 <= x < y < block_hits(f, b, bi, k).len() ==> #[trigger] block_hits(f, b, bi, k)[x].index
                < #[trigger] block_hits(f, b, bi, k)[y].index,
    decreases k,
{
    if k > 0 {
        lemma_block_hits(f, b, bi, k - 1);
        let prev = block_hits(f, b, bi, k - 1);
        let cur = block_hits(f, b, bi, k);
        assert forall|j: int|
            0 <= j < k && selects(f, b, #[trigger] b.transactions@[j]) implies cur.contains(
            TxPos { block: bi as usize, index: j as usize },
        ) by {
            if j < k - 1 {
                let x = choose|x: int|
                    0 <= x < prev.len() && prev[x] == TxPos { block: bi as usize, index: j as usize };
                if selects(f, b, b.transactions@[k - 1]) {
                    assert(cur[x] == prev[x]);
                }
            } else {
                assert(cur[cur.len() - 1] == TxPos { block: bi as usize, index: j as usize });
            }
        }
    }
}

/// Membership and order of the positions a search finds: exactly the
/// selected positions, each once, in increasing order.
pub proof fn lemma_hits(f: FilterSpec, blocks: Seq<BlockRecord>)
    requires
        blocks.len() <= usize::MAX,
        forall|i: int| 0 <= i < blocks.len() ==> (#[trigger] blocks[i]).transactions@.len() <= usize::MAX,
    ensures
        forall|p: TxPos| #[trigger] hits(f, blocks).contains(p) <==> selected_at(f, blocks, p),
        forall|x: int, y: int|
            0 <= x < y < hits(f, blocks).len() ==> pos_before(
                #[trigger] hits(f, blocks)[x],
                #[trigger] hits(f, blocks)[y],
            ),
        forall|x: int| 0 <= x < hits(f, blocks).len() ==> (#[trigger] hits(f, blocks)[x]).block < blocks.len(),
    decreases blocks.len(),
{
    if blocks.len() > 0 {
        let prev = blocks.drop_last();
        let n = blocks.len() - 1;
        let last = blocks.last();
        assert forall|i: int| 0 <= i < prev.len() implies (#[trigger] prev[i]).transactions@.len()
            <= usize::MAX by {
            assert(prev[i] == blocks[i]);
        }
        lemma_hits(f, prev);
        lemma_block_hits(f, last, n, last.transactions@.len() as int);
        let h0 = hits(f, prev);
        let h1 = block_hits(f, last, n, last.transactions@.len() as int);
        let h = hits(f, blocks);
        assert(h == h0 + h1);
        assert forall|p: TxPos| #[trigger] h.contains(p) implies selected_at(f, blocks, p) by {
            let x = choose|x: int| 0 <= x < h.len() && h[x] == p;
            if x < h0.len() {
                assert(h0[x] == p);
                assert(h0.contains(p));
                assert(prev[p.block as int] == blocks[p.block as int]);
            } else {
                assert(h1[x - h0.len()] == p);
            }
        }
        assert forall|p: TxPos| selected_at(f, blocks, p) implies #[trigger] h.contains(p) by {
            if p.block < n {
                assert(prev[p.block as int] == blocks[p.block as int]);
                assert(h0.contains(p));
                let x = choose|x: int| 0 <= x < h0.len() && h0[x] == p;
                assert(h[x] == p);
            } else {
                assert(h1.contains(TxPos { block: n as usize, index: p.index }));
                let x = choose|x: int| 0 <= x < h1.len() && h1[x] == p;
                assert(h[h0.len() + x] == p);
            }
        }
        assert forall|x: int, y: int| 0 <= x < y < h.len() implies pos_before(
            #[trigger] h[x],
            #[trigger] h[y],
        ) by {
            if y < h0.len() {
                assert(h[x] == h0[x] && h[y] == h0[y]);
            } else if x < h0.len() {
                assert(h[x] == h0[x]);
                assert(h[y] == h1[y - h0.len()]);
            } else {
                assert(h[x] == h1[x - h0.len()]);
                assert(h[y] == h1[y - h0.len()]);
            }
        }
        assert forall|x: int| 0 <= x < h.len() implies (#[trigger] h[x]).block < blocks.len() by {
            if x < h0.len() {
                assert(h[x] == h0[x]);
            } else {
                assert(h[x] == h1[x - h0.len()]);
            }
        }
    }
}

/// Signature search law: an id that no transaction of `blocks` carries
/// finds nothing, and an id that exactly one transaction carries, at
/// position `p`, finds exactly that one.
pub proof fn lemma_signature_search(blocks: Seq<BlockRecord>, id: Seq<char>, p: TxPos)
    requires
        blocks.len() <= usize::MAX,
        forall|i: int| 0 <= i < blocks.len() ==> (#[trigger] blocks[i]).transactions@.len() <= usize::MAX,
    ensures
        (forall|q: TxPos| !#[trigger] selected_at(FilterSpec::Signature(id), blocks, q)) ==> hits(
            FilterSpec::Signature(id),
            blocks,
        ) == Seq::<TxPos>::empty(),
        (forall|q: TxPos| #[trigger] selected_at(FilterSpec::Signature(id), blocks, q) <==> q == p)
            ==> hits(FilterSpec::Signature(id), blocks) == seq![p],
{
    let f = FilterSpec::Signature(id);
    let h = hits(f, blocks);
    lemma_hits(f, blocks);
    if forall|q: TxPos| !#[trigger] selected_at(f, blocks, q) {
        if h.len() > 0 {
            assert(h.contains(h[0]));
        }
        assert(h =~= Seq::<TxPos>::empty());
    }
    if forall|q: TxPos| #[trigger] selected_at(f, blocks, q) <==> q == p {
        assert(selected_at(f, blocks, p));
        assert(h.contains(p));
        if h.len() > 1 {
            assert(h.contains(h[0]));
            assert(h.contains(h[1]));
            assert(pos_before(h[0], h[1]));
        }
        assert(h[0] == p) by {
            assert(h.contains(h[0]));
        }
        assert(h =~= seq![p]);
    }
}

/// Copies a list of strings.
fn copy_strings(v: &Vec<String>) -> (r: Vec<String>)
    ensures
        r.deep_view() == v.deep_view(),
{
    let mut r: Vec<String> = Vec::new();
    let mut i: usize = 0;
    while i < v.len()
        invariant
            i <= v.len(),
            r@ == v@.take(i as int),
        decreases v.len() - i,
    {
        let s = v[i].clone();
        r.push(s);
        i = i + 1;
        assert(r@ =~= v@.take(i as int));
    }
    assert(v@.take(v.len() as int) =~= v@);
    r
}

/// The signatures, recent block hash and account keys of a JSON-encoded
/// transaction; three empty values for any other encoding.
pub fn reduce_transaction(tx: &EncodedTransaction) -> (r: (Vec<String>, String, Vec<String>))
    ensures
        (r.0.deep_view(), r.1@, r.2.deep_view()) == reduced(*tx),
{
    match tx {
        EncodedTransaction::Json { signatures, message } => {
            let sigs = copy_strings(signatures);
            match message {
                TransactionMessage::Parsed { recent_blockhash, account_keys } => {
                    (sigs, recent_blockhash.clone(), copy_strings(account_keys))
                },
                TransactionMessage::Raw { recent_blockhash, account_keys } => {
                    (sigs, recent_blockhash.clone(), copy_strings(account_keys))
                },
            }
        },
        _ => {
            let none: Vec<String> = Vec::new();
            let keys: Vec<String> = Vec::new();
            assert(none.deep_view() =~= Seq::<Seq<char>>::empty());
            assert(keys.deep_view() =~= Seq::<Seq<char>>::empty());
            (none, String::new(), keys)
        },
    }
}

/// Whether `list` holds `id`.
fn list_contains(list: &Vec<String>, id: &String) -> (r: bool)
    ensures
        r == list.deep_view().contains(id@),
{
    let mut i: usize = 0;
    while i < list.len()
        invariant
            i <= list.len(),
            forall|k: int| 0 <= k < i ==> list.deep_view()[k] != id@,
        decreases list.len() - i,
    {
        if list[i] == *id {
            assert(list.deep_view()[i as int] == id@);
            return true;
        }
        i = i + 1;
    }
    false
}

/// Whether the transaction lists the signature `signature`.
pub fn contains_signature(txn: &EncodedTransaction, signature: &str) -> (r: bool)
    ensures
        r == has_signature(*txn, signature@),
{
    let id = String::from_str(signature);
    match txn {
        EncodedTransaction::Json { signatures, .. } => list_contains(signatures, &id),
        EncodedTransaction::Accounts { signatures, .. } => list_contains(signatures, &id),
        EncodedTransaction::Binary => false,
    }
}

/// Whether transaction `t` of block `b` is selected by `f`.
fn filter_selects(f: &TxFilter, b: &BlockRecord, t: &EncodedTransaction) -> (r: bool)
    ensures
        r == selects(f@, *b, *t),
{
    match f {
        TxFilter::Signature(id) => contains_signature(t, id.as_str()),
        TxFilter::Window { lo, hi } => match b.block_time {
            Some(time) => *lo <= time && time < *hi,
            None => false,
        },
    }
}

/// The positions of the transactions of `blocks` that `filter` selects,
/// block by block and in order within each block.
pub fn select_transactions(blocks: &Vec<BlockRecord>, filter: &TxFilter) -> (r: Vec<TxPos>)
    ensures
        r@ == hits(filter@, blocks@),
{
    let mut r: Vec<TxPos> = Vec::new();
    let mut i: usize = 0;
    while i < blocks.len()
        invariant
            i <= blocks.len(),
            r@ == hits(filter@, blocks@.take(i as int)),
        decreases blocks.len() - i,
    {
        let b = &blocks[i];
        let mut j: usize = 0;
        while j < b.transactions.len()
            invariant
                i < blocks.len(),
                b == blocks@[i as int],
                j <= b.transactions.len(),
                r@ == hits(filter@, blocks@.take(i as int)) + block_hits(
                    filter@,
                    *b,
                    i as int,
                    j as int,
                ),
            decreases b.transactions.len() - j,
        {
            if filter_selects(filter, b, &b.transactions[j]) {
                r.push(TxPos { block: i, index: j });
            }
            j = j + 1;
        }
        assert(blocks@.take(i as int + 1).drop_last() =~= blocks@.take(i as int));
        i = i + 1;
    }
    assert(blocks@.take(blocks.len() as int) =~= blocks@);
    r
}

/// A query that cannot be answered.
pub enum QueryError {
    /// A query parameter other than `id` and `day`.
    UnknownParameter(String),
    /// A `day` that is not a `DD/MM/YYYY` date of a day that exists.
    MalformedDay(String),
    /// A stored count that does not read as one.
    MalformedCount(String),
    /// A public key that is not 32 bytes long.
    MalformedKey(String),
}

/// The meaning of a [`QueryError`].
pub enum QueryFault {
    UnknownParameter(Seq<char>),
    MalformedDay(Seq<char>),
    MalformedCount(Seq<char>),
    MalformedKey(Seq<char>),
}

impl View for QueryError {
    type V = QueryFault;

    open spec fn view(&self) -> QueryFault {
        match self {
            QueryError::UnknownParameter(s) => QueryFault::UnknownParameter(s@),
            QueryError::MalformedDay(s) => QueryFault::MalformedDay(s@),
            QueryError::MalformedCount(s) => QueryFault::MalformedCount(s@),
            QueryError::MalformedKey(s) => QueryFault::MalformedKey(s@),
        }
    }
}

/// The bytes of a public key given as text: its UTF-8 bytes, which must be
/// exactly 32.
pub fn account_key_bytes(pubkey: &str) -> (r: Result<Vec<u8>, QueryError>)
    ensures
        match r {
            Ok(bytes) => pubkey.spec_bytes().len() == 32 && bytes@ == pubkey.spec_bytes(),
            Err(e) => pubkey.spec_bytes().len() != 32 && e@ == QueryFault::MalformedKey(pubkey@),
        },
{
    let bytes = pubkey.as_bytes_vec();
    if bytes.len() == 32 {
        Ok(bytes)
    } else {
        Err(QueryError::MalformedKey(String::from_str(pubkey)))
    }
}

/// The query parameters as (name, value) texts.
pub open spec fn params_view(params: Seq<(String, String)>) -> Seq<(Seq<char>, Seq<char>)> {
    params.map_values(|p: (String, String)| (p.0@, p.1@))
}

/// The answer to a transaction search with `params`, taken in order: `id`
/// adds the transactions that carry that signature, `day` those of the
/// blocks whose time falls within that UTC day, and each in turn adds them
/// block by block; the first malformed day or unknown parameter name makes
/// the whole search fail.
pub open spec fn search_result(blocks: Seq<BlockRecord>, params: Seq<(Seq<char>, Seq<char>)>) -> Result<
    Seq<TxPos>,
    QueryFault,
>
    decreases params.len(),
{
    if params.len() == 0 {
        Ok(Seq::empty())
    } else {
        match search_result(blocks, params.drop_last()) {
            Err(e) => Err(e),
            Ok(acc) => {
                let (name, value) = params.last();
                if name == "id"@ {
                    Ok(acc + hits(FilterSpec::Signature(value), blocks))
                } else if name == "day"@ {
                    match day_start(value) {
                        Some(lo) => Ok(acc + hits(FilterSpec::Window(lo, lo + SEC_PER_DAY), blocks)),
                        None => Err(QueryFault::MalformedDay(value)),
                    }
                } else {
                    Err(QueryFault::UnknownParameter(name))
                }
            },
        }
    }
}

/// Once a prefix of the parameters fails, the whole search fails the same way.
proof fn lemma_search_failure_stands(
    blocks: Seq<BlockRecord>,
    params: Seq<(Seq<char>, Seq<char>)>,
    k: int,
    e: QueryFault,
)
    requires
        0 <= k <= params.len(),
        search_result(blocks, params.take(k)) == Err::<Seq<TxPos>, QueryFault>(e),
    ensures
        search_result(blocks, params) == Err::<Seq<TxPos>, QueryFault>(e),
    decreases params.len() - k,
{
    if k == params.len() {
        assert(params.take(k) =~= params);
    } else {
        assert(params.take(k + 1).drop_last() =~= params.take(k));
        lemma_search_failure_stands(blocks, params, k + 1, e);
    }
}

/// Unknown parameter law: a search with any parameter name other than `id`
/// and `day` fails rather than answering with a partial or empty list; when
/// every `day` given is well formed, it fails with an unknown parameter.
pub proof fn lemma_unknown_parameter_fails(
    blocks: Seq<BlockRecord>,
    params: Seq<(Seq<char>, Seq<char>)>,
    k: int,
)
    requires
        0 <= k < params.len(),
        params[k].0 != "id"@,
        params[k].0 != "day"@,
    ensures
        search_result(blocks, params) is Err,
        (forall|i: int|
            0 <= i < params.len() && (#[trigger] params[i]).0 == "day"@ ==> day_start(
                params[i].1,
            ) is Some) ==> search_result(blocks, params) matches Err(
            QueryFault::UnknownParameter(_),
        ),
    decreases params.len(),
{
    let prev = params.drop_last();
    if k < params.len() - 1 {
        assert(prev[k] == params[k]);
        lemma_unknown_parameter_fails(blocks, prev, k);
        if forall|i: int|
            0 <= i < params.len() && (#[trigger] params[i]).0 == "day"@ ==> day_start(
                params[i].1,
            ) is Some {
            assert forall|i: int|
                0 <= i < prev.len() && (#[trigger] prev[i]).0 == "day"@ implies day_start(
                prev[i].1,
            ) is Some by {
                assert(prev[i] == params[i]);
            }
        }
    } else {
        if forall|i: int|
            0 <= i < params.len() && (#[trigger] params[i]).0 == "day"@ ==> day_start(
                params[i].1,
            ) is Some {
            assert forall|i: int|
                0 <= i < prev.len() && (#[trigger] prev[i]).0 == "day"@ implies day_start(
                prev[i].1,
            ) is Some by {
                assert(prev[i] == params[i]);
            }
            lemma_search_no_malformed_day(blocks, prev);
        }
    }
}

/// A search whose every `day` is well formed fails, if at all, on an
/// unknown parameter.
proof fn lemma_search_no_malformed_day(blocks: Seq<BlockRecord>, params: Seq<(Seq<char>, Seq<char>)>)
    requires
        forall|i: int|
            0 <= i < params.len() && (#[trigger] params[i]).0 == "day"@ ==> day_start(
                params[i].1,
            ) is Some,
    ensures
        search_result(blocks, params) is Ok || search_result(blocks, params) matches Err(
            QueryFault::UnknownParameter(_),
        ),
    decreases params.len(),
{
    if params.len() > 0 {
        let prev = params.drop_last();
        assert forall|i: int|
            0 <= i < prev.len() && (#[trigger] prev[i]).0 == "day"@ implies day_start(
            prev[i].1,
        ) is Some by {
            assert(prev[i] == params[i]);
        }
        lemma_search_no_malformed_day(blocks, prev);
        assert(params[params.len() - 1] == params.last());
    }
}

/// Searches the transactions of `blocks` as `params` ask.
pub fn search_transactions(blocks: &Vec<BlockRecord>, params: &Vec<(String, String)>) -> (r: Result<
    Vec<TxPos>,
    QueryError,
>)
    ensures
        match r {
            Ok(found) => search_result(blocks@, params_view(params@)) == Ok::<
                Seq<TxPos>,
                QueryFault,
            >(found@),
            Err(e) => search_result(blocks@, params_view(params@)) == Err::<Seq<TxPos>, QueryFault>(
                e@,
            ),
        },
{
    let id_name = String::from_str("id");
    let day_name = String::from_str("day");
    let mut found: Vec<TxPos> = Vec::new();
    let mut i: usize = 0;
    while i < params.len()
        invariant
            i <= params.len(),
            id_name@ == "id"@,
            day_name@ == "day"@,
            search_result(blocks@, params_view(params@).take(i as int)) == Ok::<
                Seq<TxPos>,
                QueryFault,
            >(found@),
        decreases params.len() - i,
    {
        let ghost pv = params_view(params@);
        assert(pv.take(i as int + 1).drop_last() =~= pv.take(i as int));
        let (name, value) = &params[i];
        if *name == id_name {
            let filter = TxFilter::Signature(value.clone());
            let mut more = select_transactions(blocks, &filter);
            found.append(&mut more);
        } else if *name == day_name {
            match day_start_secs(value.as_str()) {
                Some(lo) => {
                    proof {
                        lemma_day_start_bounds(value@);
                    }
                    let filter = TxFilter::Window { lo, hi: lo + SEC_PER_DAY };
                    let mut more = select_transactions(blocks, &filter);
                    found.append(&mut more);
                },
                None => {
                    let e = QueryError::MalformedDay(value.clone());
                    proof {
                        lemma_search_failure_stands(blocks@, pv, i as int + 1, e@);
                    }
                    return Err(e);
                },
            }
        } else {
            let e = QueryError::UnknownParameter(name.clone());
            proof {
                lemma_search_failure_stands(blocks@, pv, i as int + 1, e@);
            }
            return Err(e);
        }
        i = i + 1;
    }
    assert(params_view(params@).take(params.len() as int) =~= params_view(params@));
    Ok(found)
}

} // verus!
