//! The SQL of the query builder: the text of a select, a count and an insert,
//! with a `?` placeholder for each value. The values themselves, and the
//! connection that runs the text, belong to the caller.
use vstd::prelude::*;
use crate::text;

verus! {

/// A condition of a query: column, operator, and the word that joins it to the
/// condition before it.
#[derive(Debug, Clone)]
pub struct Condition {
    pub col: String,
    pub op: String,
    pub joiner: String,
}

/// What a condition reads as.
pub open spec fn cond_view(c: Condition) -> (Seq<char>, Seq<char>, Seq<char>) {
    (c.col@, c.op@, c.joiner@)
}

pub open spec fn cond_views(cs: Seq<Condition>) -> Seq<(Seq<char>, Seq<char>, Seq<char>)> {
    cs.map_values(|c: Condition| cond_view(c))
}

/// `col op ?`.
pub open spec fn cond_text(c: (Seq<char>, Seq<char>, Seq<char>)) -> Seq<char> {
    c.0 + seq![' '] + c.1 + " ?"@
}

/// The conditions of a select, each after its joiner: `a = ? and b = ?`.
pub open spec fn where_text(cs: Seq<(Seq<char>, Seq<char>, Seq<char>)>) -> Seq<char>
    decreases cs.len(),
{
    if cs.len() == 0 {
        Seq::empty()
    } else if cs.len() == 1 {
        cond_text(cs[0])
    } else {
        where_text(cs.drop_last()) + seq![' '] + cs.last().2 + seq![' '] + cond_text(cs.last())
    }
}

/// The conditions as `col op ?` each.
pub open spec fn cond_texts(cs: Seq<(Seq<char>, Seq<char>, Seq<char>)>) -> Seq<Seq<char>> {
    cs.map_values(|c: (Seq<char>, Seq<char>, Seq<char>)| cond_text(c))
}

/// The orderings as `col dir` each.
pub open spec fn order_texts(os: Seq<(Seq<char>, Seq<char>)>) -> Seq<Seq<char>> {
    os.map_values(|o: (Seq<char>, Seq<char>)| o.0 + seq![' '] + o.1)
}

pub open spec fn pair_views(v: Seq<(String, String)>) -> Seq<(Seq<char>, Seq<char>)> {
    v.map_values(|p: (String, String)| (p.0@, p.1@))
}

/// The text of a select.
pub open spec fn select_text(
    table: Seq<char>,
    cols: Seq<Seq<char>>,
    conds: Seq<(Seq<char>, Seq<char>, Seq<char>)>,
    orders: Seq<(Seq<char>, Seq<char>)>,
    limit: Option<u64>,
    offset: Option<u64>,
) -> Seq<char> {
    "SELECT "@ + text::joined_with(cols, ", "@) + " FROM "@ + table + (if conds.len() > 0 {
        " WHERE "@ + where_text(conds)
    } else {
        Seq::empty()
    }) + (if orders.len() > 0 {
        " ORDER BY "@ + text::joined_with(order_texts(orders), ", "@)
    } else {
        Seq::empty()
    }) + (match limit {
        Some(n) => " LIMIT "@ + text::decimal(n as nat),
        None => Seq::empty(),
    }) + (match offset {
        Some(n) => " OFFSET "@ + text::decimal(n as nat),
        None => Seq::empty(),
    })
}

/// The text of a count: the conditions joined with `AND`, whatever their joiners.
pub open spec fn count_text(table: Seq<char>, conds: Seq<(Seq<char>, Seq<char>, Seq<char>)>) -> Seq<char> {
    "SELECT COUNT(*) as count FROM "@ + table + seq![' '] + (if conds.len() == 0 {
        Seq::empty()
    } else {
        "WHERE "@ + text::joined_with(cond_texts(conds), " AND "@)
    })
}

/// `n` placeholders.
pub open spec fn placeholders(n: nat) -> Seq<Seq<char>> {
    Seq::new(n, |i: int| "?"@)
}

/// The text of an insert of the given columns.
pub open spec fn insert_text(table: Seq<char>, cols: Seq<Seq<char>>) -> Seq<char> {
    "INSERT INTO "@ + table + " ("@ + text::joined_with(cols, ", "@) + ") VALUES ("@
        + text::joined_with(placeholders(cols.len()), ", "@) + seq![')']
}

/// A query on a table: the columns it selects, its conditions, orderings, limit
/// and offset.
#[derive(Debug, Clone)]
pub struct SqlQuery {
    pub table: String,
    pub cols: Vec<String>,
    pub conds: Vec<Condition>,
    pub order_bys: Vec<(String, String)>,
    pub limit: Option<u64>,
    pub offset: Option<u64>,
}

fn push_str(out: &mut String, s: &str)
    ensures
        final(out)@ == old(out)@ + s@,
{
    out.append(s);
}

impl SqlQuery {
    /// A query of every column of `table`.
    pub fn new(table: &str) -> (r: SqlQuery)
        ensures
            r.table@ == table@,
            text::str_views(r.cols@) == seq!["*"@],
            r.conds@.len() == 0,
            r.order_bys@.len() == 0,
            r.limit is None,
            r.offset is None,
    {
        let mut cols: Vec<String> = Vec::new();
        cols.push(text::owned("*"));
        proof {
            assert(text::str_views(cols@) =~= seq!["*"@]);
        }
        SqlQuery {
            table: text::owned(table),
            cols,
            conds: Vec::new(),
            order_bys: Vec::new(),
            limit: None,
            offset: None,
        }
    }

    /// Adds the condition `col = ?`, joined with `and`.
    pub fn where_eq(self, col: &str) -> (r: SqlQuery)
        ensures
            r.table == self.table,
            r.cols == self.cols,
            cond_views(r.conds@) == cond_views(self.conds@).push((col@, "="@, "and"@)),
            r.order_bys == self.order_bys,
            r.limit == self.limit,
            r.offset == self.offset,
    {
        let mut q = self;
        let c = Condition { col: text::owned(col), op: text::owned("="), joiner: text::owned("and") };
        let ghost before = q.conds@;
        q.conds.push(c);
        proof {
            assert(cond_views(q.conds@) =~= cond_views(before).push((col@, "="@, "and"@)));
        }
        q
    }

    /// Adds an ordering by `col` in direction `dir`.
    pub fn order_by(self, col: &str, dir: &str) -> (r: SqlQuery)
        ensures
            r.table == self.table,
            r.cols == self.cols,
            r.conds == self.conds,
            pair_views(r.order_bys@) == pair_views(self.order_bys@).push((col@, dir@)),
            r.limit == self.limit,
            r.offset == self.offset,
    {
        let mut q = self;
        let ghost before = q.order_bys@;
        q.order_bys.push((text::owned(col), text::owned(dir)));
        proof {
            assert(pair_views(q.order_bys@) =~= pair_views(before).push((col@, dir@)));
        }
        q
    }

    pub fn limit(self, n: u64) -> (r: SqlQuery)
        ensures
            r.table == self.table,
            r.cols == self.cols,
            r.conds == self.conds,
            r.order_bys == self.order_bys,
            r.limit == Some(n),
            r.offset == self.offset,
    {
        let mut q = self;
        q.limit = Some(n);
        q
    }

    pub fn offset(self, n: u64) -> (r: SqlQuery)
        ensures
            r.table == self.table,
            r.cols == self.cols,
            r.conds == self.conds,
            r.order_bys == self.order_bys,
            r.limit == self.limit,
            r.offset == Some(n),
    {
        let mut q = self;
        q.offset = Some(n);
        q
    }

    /// The text of the select; the values go in the order of the conditions.
    pub fn sql(&self) -> (r: String)
        ensures
            r@ == select_text(
                self.table@,
                text::str_views(self.cols@),
                cond_views(self.conds@),
                pair_views(self.order_bys@),
                self.limit,
                self.offset,
            ),
    {
        let cols = text::join_with(self.cols.as_slice(), ", ");
        let mut out = text::owned("SELECT ");
        push_str(&mut out, cols.as_str());
        push_str(&mut out, " FROM ");
        push_str(&mut out, self.table.as_str());
        let ghost head = out@;
        let ghost cv = cond_views(self.conds@);
        if self.conds.len() > 0 {
            push_str(&mut out, " WHERE ");
            let ghost start = out@;
            let mut i: usize = 0;
            while i < self.conds.len()
                invariant
                    i <= self.conds@.len(),
                    cv == cond_views(self.conds@),
                    out@ == start + where_text(cv.take(i as int)),
                decreases self.conds.len() - i,
            {
                let c = &self.conds[i];
                proof {
                    assert(cv.take(i + 1).drop_last() =~= cv.take(i as int));
                    assert(cv.take(i + 1).last() == cond_view(*c));
                }
                if i > 0 {
                    push_str(&mut out, " ");
                    push_str(&mut out, c.joiner.as_str());
                    push_str(&mut out, " ");
                }
                push_str(&mut out, c.col.as_str());
                push_str(&mut out, " ");
                push_str(&mut out, c.op.as_str());
                push_str(&mut out, " ?");
                proof {
                    reveal_strlit(" ");
                    reveal_strlit(" ?");
                    if i == 0 {
                        assert(cv.take(1) =~= seq![cond_view(*c)]);
                    }
                    assert(out@ =~= start + where_text(cv.take(i + 1)));
                }
                i += 1;
            }
            proof {
                assert(cv.take(i as int) =~= cv);
            }
        }
        let ghost mid = out@;
        if self.order_bys.len() > 0 {
            let mut parts: Vec<String> = Vec::new();
            let mut j: usize = 0;
            while j < self.order_bys.len()
                invariant
                    j <= self.order_bys@.len(),
                    text::str_views(parts@) == order_texts(pair_views(self.order_bys@)).take(j as int),
                decreases self.order_bys.len() - j,
            {
                let p = text::cat3(self.order_bys[j].0.as_str(), " ", self.order_bys[j].1.as_str());
                proof {
                    reveal_strlit(" ");
                    text::lemma_str_views_push(parts@, p);
                    let pv = pair_views(self.order_bys@);
                    assert(pv[j as int] == (self.order_bys@[j as int].0@, self.order_bys@[j as int].1@));
                    assert(order_texts(pv)[j as int] =~= p@);
                    assert(order_texts(pair_views(self.order_bys@)).take(j + 1) =~= order_texts(
                        pair_views(self.order_bys@),
                    ).take(j as int).push(p@));
                }
                parts.push(p);
                j += 1;
            }
            proof {
                assert(order_texts(pair_views(self.order_bys@)).take(j as int) =~= order_texts(
                    pair_views(self.order_bys@),
                ));
            }
            let joined = text::join_with(parts.as_slice(), ", ");
            push_str(&mut out, " ORDER BY ");
            push_str(&mut out, joined.as_str());
        }
        let ghost mid2 = out@;
        if let Some(n) = self.limit {
            push_str(&mut out, " LIMIT ");
            let t = text::u64_to_string(n);
            push_str(&mut out, t.as_str());
        }
        if let Some(n) = self.offset {
            push_str(&mut out, " OFFSET ");
            let t = text::u64_to_string(n);
            push_str(&mut out, t.as_str());
        }
        proof {
            reveal_strlit("SELECT ");
            reveal_strlit(", ");
            reveal_strlit(" FROM ");
            reveal_strlit(" WHERE ");
            reveal_strlit(" ORDER BY ");
            reveal_strlit(" LIMIT ");
            reveal_strlit(" OFFSET ");
            assert(out@ =~= select_text(
                self.table@,
                text::str_views(self.cols@),
                cond_views(self.conds@),
                pair_views(self.order_bys@),
                self.limit,
                self.offset,
            ));
        }
        out
    }

    /// The text of the count of matching rows.
    pub fn count_sql(&self) -> (r: String)
        ensures
            r@ == count_text(self.table@, cond_views(self.conds@)),
    {
        let mut out = text::owned("SELECT COUNT(*) as count FROM ");
        push_str(&mut out, self.table.as_str());
        push_str(&mut out, " ");
        if self.conds.len() > 0 {
            let ghost cv = cond_views(self.conds@);
            let mut parts: Vec<String> = Vec::new();
            let mut j: usize = 0;
            while j < self.conds.len()
                invariant
                    j <= self.conds@.len(),
                    cv == cond_views(self.conds@),
                    text::str_views(parts@) == cond_texts(cv).take(j as int),
                decreases self.conds.len() - j,
            {
                let a = text::cat3(self.conds[j].col.as_str(), " ", self.conds[j].op.as_str());
                let p = text::cat(a.as_str(), " ?");
                proof {
                    reveal_strlit(" ");
                    reveal_strlit(" ?");
                    text::lemma_str_views_push(parts@, p);
                    assert(cv[j as int] == cond_view(self.conds@[j as int]));
                    assert(cond_texts(cv)[j as int] =~= p@);
                    assert(cond_texts(cv).take(j + 1) =~= cond_texts(cv).take(j as int).push(p@));
                }
                parts.push(p);
                j += 1;
            }
            proof {
                assert(cond_texts(cv).take(j as int) =~= cond_texts(cv));
            }
            let joined = text::join_with(parts.as_slice(), " AND ");
            push_str(&mut out, "WHERE ");
            push_str(&mut out, joined.as_str());
        }
        proof {
            reveal_strlit("SELECT COUNT(*) as count FROM ");
            reveal_strlit(" ");
            reveal_strlit("WHERE ");
            assert(out@ =~= count_text(self.table@, cond_views(self.conds@)));
        }
        out
    }

    /// The text of an insert of these columns into the table.
    pub fn insert_sql(&self, cols: &[String]) -> (r: String)
        ensures
            r@ == insert_text(self.table@, text::str_views(cols@)),
    {
        let names = text::join_with(cols, ", ");
        let mut marks: Vec<String> = Vec::new();
        let mut j: usize = 0;
        while j < cols.len()
            invariant
                j <= cols@.len(),
                text::str_views(marks@) == placeholders(j as nat),
            decreases cols.len() - j,
        {
            let q = text::owned("?");
            proof {
                text::lemma_str_views_push(marks@, q);
                assert(placeholders((j + 1) as nat) =~= placeholders(j as nat).push(q@));
            }
            marks.push(q);
            j += 1;
        }
        let qs = text::join_with(marks.as_slice(), ", ");
        let mut out = text::owned("INSERT INTO ");
        push_str(&mut out, self.table.as_str());
        push_str(&mut out, " (");
        push_str(&mut out, names.as_str());
        push_str(&mut out, ") VALUES (");
        push_str(&mut out, qs.as_str());
        push_str(&mut out, ")");
        proof {
            reveal_strlit("INSERT INTO ");
            reveal_strlit(" (");
            reveal_strlit(") VALUES (");
            reveal_strlit(")");
            assert(out@ =~= insert_text(self.table@, text::str_views(cols@)));
        }
        out
    }
}

} // verus!
