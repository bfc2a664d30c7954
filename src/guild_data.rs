//! One dataset's tables (colle catalog, week anchors, colloscope grid, ghost
//! groups) and their resolution into per-group, dated, ordered colles.
use vstd::prelude::*;
use crate::colle::{
    catalog_line, colle_text, compact_text, hours_valid, instance_of, Colle, ColleData,
    ColleDataView, ColleStringFormat, ColleView,
};
use crate::group::{first_n, upcoming};
use crate::text::{decimal_text, push_decimal};
use crate::utils::{month_short_name, month_to_short_fr};
use crate::date::{
    calendar_date_of, date_views, iso_week_of, next_occurrence, parse_date, parsed_date, project,
    projected_day, Date, Weekday, MAX_JULIAN_DAY,
};
use crate::error::ParseError;
use crate::group::{colle_views, sort_by_start, sorted_by_start, Group, GroupId};
use crate::prof::{with_name, ProfRegistry};
use crate::text::{
    chars_eq, chars_of, lines, lines_of, number_at_most, parse_number, split, split_on, tokens,
    tokens_of, views_of,
};
use crate::utils::Jour;

verus! {

pub type WeekId = usize;

pub open spec fn catalog_views(c: Seq<ColleData>) -> Seq<ColleDataView> {
    c.map_values(|d: ColleData| d@)
}

/// The catalog described by its lines; the first refused line decides the error.
pub open spec fn parsed_catalog(ls: Seq<Seq<char>>) -> Result<Seq<ColleDataView>, ParseError>
    decreases ls.len(),
{
    if ls.len() == 0 {
        Ok(seq![])
    } else {
        match parsed_catalog(ls.drop_last()) {
            Err(e) => Err(e),
            Ok(v) => match catalog_line(ls.last()) {
                Ok(d) => Ok(v.push(d)),
                Err(c) => Err(ParseError::CatalogLine { line: ls.len() as usize, cause: c }),
            },
        }
    }
}

/// The registry's names after the instructors of `entries` were looked up in order.
pub open spec fn interned(names: Seq<Seq<char>>, entries: Seq<ColleDataView>) -> Seq<Seq<char>>
    decreases entries.len(),
{
    if entries.len() == 0 {
        names
    } else {
        with_name(interned(names, entries.drop_last()), entries.last().prof)
    }
}

/// The anchor date of a week line: its last token.
pub open spec fn anchor_of_line(l: Seq<char>) -> Option<int> {
    let t = tokens_of(l);
    if t.len() == 0 {
        None
    } else {
        parsed_date(t.last())
    }
}

/// The anchor table described by its lines, week 1 first.
pub open spec fn parsed_anchors(ls: Seq<Seq<char>>) -> Result<Seq<int>, ParseError>
    decreases ls.len(),
{
    if ls.len() == 0 {
        Ok(seq![])
    } else {
        match parsed_anchors(ls.drop_last()) {
            Err(e) => Err(e),
            Ok(v) => match anchor_of_line(ls.last()) {
                Some(d) => Ok(v.push(d)),
                None => Err(ParseError::DateParse { line: ls.len() as usize }),
            },
        }
    }
}

/// The ghost groups listed one number per line.
pub open spec fn parsed_ghosts(ls: Seq<Seq<char>>) -> Result<Seq<int>, ParseError>
    decreases ls.len(),
{
    if ls.len() == 0 {
        Ok(seq![])
    } else {
        match parsed_ghosts(ls.drop_last()) {
            Err(e) => Err(e),
            Ok(v) => match number_at_most(ls.last(), usize::MAX as nat) {
                Some(n) => Ok(v.push(n as int)),
                None => Err(ParseError::GroupId { line: ls.len() as usize }),
            },
        }
    }
}

proof fn lemma_catalog_prefix(ls: Seq<Seq<char>>, i: int)
    requires
        0 <= i <= ls.len(),
        parsed_catalog(ls.subrange(0, i)) is Err,
    ensures
        parsed_catalog(ls) == parsed_catalog(ls.subrange(0, i)),
    decreases ls.len(),
{
    if i < ls.len() {
        assert(ls.drop_last().subrange(0, i) =~= ls.subrange(0, i));
        lemma_catalog_prefix(ls.drop_last(), i);
    } else {
        assert(ls.subrange(0, i) =~= ls);
    }
}

proof fn lemma_anchors_prefix(ls: Seq<Seq<char>>, i: int)
    requires
        0 <= i <= ls.len(),
        parsed_anchors(ls.subrange(0, i)) is Err,
    ensures
        parsed_anchors(ls) == parsed_anchors(ls.subrange(0, i)),
    decreases ls.len(),
{
    if i < ls.len() {
        assert(ls.drop_last().subrange(0, i) =~= ls.subrange(0, i));
        lemma_anchors_prefix(ls.drop_last(), i);
    } else {
        assert(ls.subrange(0, i) =~= ls);
    }
}

proof fn lemma_ghosts_prefix(ls: Seq<Seq<char>>, i: int)
    requires
        0 <= i <= ls.len(),
        parsed_ghosts(ls.subrange(0, i)) is Err,
    ensures
        parsed_ghosts(ls) == parsed_ghosts(ls.subrange(0, i)),
    decreases ls.len(),
{
    if i < ls.len() {
        assert(ls.drop_last().subrange(0, i) =~= ls.subrange(0, i));
        lemma_ghosts_prefix(ls.drop_last(), i);
    } else {
        assert(ls.subrange(0, i) =~= ls);
    }
}

/// The catalog of colle types described by `text`, one entry per line.
pub fn parse_catalog(text: &str, profs: &mut ProfRegistry) -> (r: Result<Vec<ColleData>, ParseError>)
    ensures
        parsed_catalog(lines_of(text@)) matches Ok(v) ==> r matches Ok(c) && catalog_views(c@)
            == v && final(profs)@ == interned(old(profs)@, v),
        parsed_catalog(lines_of(text@)) matches Err(e) ==> r == Err::<Vec<ColleData>, ParseError>(e),
        r matches Ok(c) ==> forall|i: int| 0 <= i < c@.len() ==> hours_valid(#[trigger] c@[i]@),
        r is Err ==> exists|es: Seq<ColleDataView>| final(profs)@ == #[trigger] interned(
            old(profs)@,
            es,
        ),
{
    let t = chars_of(text);
    let ls = lines(t.as_slice());
    let ghost lv = lines_of(text@);
    let mut out: Vec<ColleData> = Vec::new();
    let mut i: usize = 0;
    assert(lv.subrange(0, 0) =~= Seq::<Seq<char>>::empty());
    assert(catalog_views(out@) =~= Seq::<ColleDataView>::empty());
    while i < ls.len()
        invariant
            views_of(ls@) == lv,
            lv == lines_of(text@),
            i <= ls@.len(),
            parsed_catalog(lv.subrange(0, i as int)) == Ok::<Seq<ColleDataView>, ParseError>(
                catalog_views(out@),
            ),
            profs@ == interned(old(profs)@, catalog_views(out@)),
            forall|k: int| 0 <= k < out@.len() ==> hours_valid(#[trigger] out@[k]@),
        decreases ls@.len() - i,
    {
        let ghost pre = lv.subrange(0, i as int);
        assert(lv.subrange(0, i + 1).drop_last() =~= pre);
        assert(ls@[i as int]@ == lv[i as int]);
        let line = crate::text::string_of(ls[i].as_slice());
        match Colle::parse_string(line.as_str(), profs) {
            Ok(d) => {
                let ghost before = catalog_views(out@);
                out.push(d);
                assert(catalog_views(out@) =~= before.push(d@));
                assert(catalog_views(out@).drop_last() =~= before);
            },
            Err(cause) => {
                assert(profs@ == interned(old(profs)@, catalog_views(out@)));
                proof {
                    assert(lv.subrange(0, i + 1).last() == lv[i as int]);
                    assert(parsed_catalog(lv.subrange(0, i + 1)) == Err::<Seq<ColleDataView>, ParseError>(ParseError::CatalogLine { line: (i + 1) as usize, cause }));
                    lemma_catalog_prefix(lv, i + 1);
                }
                return Err(ParseError::CatalogLine { line: i + 1, cause });
            },
        }
        i = i + 1;
    }
    assert(lv.subrange(0, ls@.len() as int) =~= lv);
    Ok(out)
}

/// The week-anchor table described by `text`: the date that ends line `n`
/// anchors week `n`.
pub fn read_weeks_data(text: &str) -> (r: Result<Vec<Date>, ParseError>)
    ensures
        parsed_anchors(lines_of(text@)) matches Ok(v) ==> r matches Ok(d) && date_views(d@) == v,
        parsed_anchors(lines_of(text@)) matches Err(e) ==> r == Err::<Vec<Date>, ParseError>(e),
{
    let t = chars_of(text);
    let ls = lines(t.as_slice());
    let ghost lv = lines_of(text@);
    let mut out: Vec<Date> = Vec::new();
    let mut i: usize = 0;
    assert(lv.subrange(0, 0) =~= Seq::<Seq<char>>::empty());
    assert(date_views(out@) =~= Seq::<int>::empty());
    while i < ls.len()
        invariant
            views_of(ls@) == lv,
            lv == lines_of(text@),
            i <= ls@.len(),
            parsed_anchors(lv.subrange(0, i as int)) == Ok::<Seq<int>, ParseError>(
                date_views(out@),
            ),
        decreases ls@.len() - i,
    {
        let ghost pre = lv.subrange(0, i as int);
        assert(lv.subrange(0, i + 1).drop_last() =~= pre);
        assert(ls@[i as int]@ == lv[i as int]);
        let toks = tokens(ls[i].as_slice());
        let n = toks.len();
        let parsed = if n == 0 {
            None
        } else {
            assert(toks@[n - 1]@ == tokens_of(lv[i as int]).last());
            parse_date(toks[n - 1].as_slice())
        };
        match parsed {
            Some(d) => {
                let ghost before = date_views(out@);
                out.push(d);
                assert(date_views(out@) =~= before.push(d@));
            },
            None => {
                proof {
                    assert(lv.subrange(0, i + 1).last() == lv[i as int]);
                    assert(parsed_anchors(lv.subrange(0, i + 1)) == Err::<Seq<int>, ParseError>(ParseError::DateParse { line: (i + 1) as usize }));
                    lemma_anchors_prefix(lv, i + 1);
                }
                return Err(ParseError::DateParse { line: i + 1 });
            },
        }
        i = i + 1;
    }
    assert(lv.subrange(0, ls@.len() as int) =~= lv);
    Ok(out)
}

/// The ghost groups listed in `text`, one group number per line.
pub fn read_ghost_groups(text: &str) -> (r: Result<Vec<GroupId>, ParseError>)
    ensures
        parsed_ghosts(lines_of(text@)) matches Ok(v) ==> r matches Ok(g) && g@.map_values(
            |x: usize| x as int,
        ) == v,
        parsed_ghosts(lines_of(text@)) matches Err(e) ==> r == Err::<Vec<GroupId>, ParseError>(e),
{
    let t = chars_of(text);
    let ls = lines(t.as_slice());
    let ghost lv = lines_of(text@);
    let mut out: Vec<GroupId> = Vec::new();
    let mut i: usize = 0;
    assert(lv.subrange(0, 0) =~= Seq::<Seq<char>>::empty());
    assert(out@.map_values(|x: usize| x as int) =~= Seq::<int>::empty());
    while i < ls.len()
        invariant
            views_of(ls@) == lv,
            lv == lines_of(text@),
            i <= ls@.len(),
            parsed_ghosts(lv.subrange(0, i as int)) == Ok::<Seq<int>, ParseError>(
                out@.map_values(|x: usize| x as int),
            ),
        decreases ls@.len() - i,
    {
        let ghost pre = lv.subrange(0, i as int);
        assert(lv.subrange(0, i + 1).drop_last() =~= pre);
        assert(ls@[i as int]@ == lv[i as int]);
        match parse_number(ls[i].as_slice(), usize::MAX as u64) {
            Some(n) => {
                let ghost before = out@.map_values(|x: usize| x as int);
                out.push(n as usize);
                assert(out@.map_values(|x: usize| x as int) =~= before.push(n as int));
            },
            None => {
                proof {
                    assert(lv.subrange(0, i + 1).last() == lv[i as int]);
                    assert(parsed_ghosts(lv.subrange(0, i + 1)) == Err::<Seq<int>, ParseError>(ParseError::GroupId { line: (i + 1) as usize }));
                    lemma_ghosts_prefix(lv, i + 1);
                }
                return Err(ParseError::GroupId { line: i + 1 });
            },
        }
        i = i + 1;
    }
    assert(lv.subrange(0, ls@.len() as int) =~= lv);
    Ok(out)
}

/// The week numbers of one header token, `-`-joined.
pub open spec fn week_numbers(ps: Seq<Seq<char>>) -> Option<Seq<int>>
    decreases ps.len(),
{
    if ps.len() == 0 {
        Some(seq![])
    } else {
        match week_numbers(ps.drop_last()) {
            None => None,
            Some(ws) => match number_at_most(ps.last(), usize::MAX as nat) {
                None => None,
                Some(n) => Some(ws.push(n as int)),
            },
        }
    }
}

/// The first week of `ws` outside `1..=n`.
pub open spec fn first_bad_week(ws: Seq<int>, n: int) -> Option<int>
    decreases ws.len(),
{
    if ws.len() == 0 {
        None
    } else {
        match first_bad_week(ws.drop_last(), n) {
            Some(w) => Some(w),
            None => if 1 <= ws.last() <= n {
                None
            } else {
                Some(ws.last())
            },
        }
    }
}

/// The columns of the grid header's tokens, for an anchor table of `n` weeks.
pub open spec fn parsed_columns(toks: Seq<Seq<char>>, n: int) -> Result<Seq<Seq<int>>, ParseError>
    decreases toks.len(),
{
    if toks.len() == 0 {
        Ok(seq![])
    } else {
        match parsed_columns(toks.drop_last(), n) {
            Err(e) => Err(e),
            Ok(cs) => match week_numbers(split_on(toks.last(), '-')) {
                None => Err(ParseError::GridShape { line: 1 }),
                Some(ws) => match first_bad_week(ws, n) {
                    Some(w) => Err(
                        ParseError::WeekRange { column: toks.len() as usize, week: w as usize },
                    ),
                    None => Ok(cs.push(ws)),
                },
            },
        }
    }
}

/// Index of the first catalog entry whose compact type form is `t`.
pub open spec fn lookup(catalog: Seq<ColleDataView>, t: Seq<char>) -> Option<int>
    decreases catalog.len(),
{
    if catalog.len() == 0 {
        None
    } else {
        match lookup(catalog.drop_last(), t) {
            Some(i) => Some(i),
            None => if compact_text(catalog.last().id) == t {
                Some(catalog.len() - 1)
            } else {
                None
            },
        }
    }
}

/// The entries named by the `+`-joined ids of one cell, if all exist.
pub open spec fn cell_entries(catalog: Seq<ColleDataView>, ps: Seq<Seq<char>>) -> Option<
    Seq<ColleDataView>,
>
    decreases ps.len(),
{
    if ps.len() == 0 {
        Some(seq![])
    } else {
        match cell_entries(catalog, ps.drop_last()) {
            None => None,
            Some(es) => match lookup(catalog, ps.last()) {
                None => None,
                Some(i) => Some(es.push(catalog[i])),
            },
        }
    }
}

/// The entries of each cell of a group row at line `line`.
pub open spec fn row_entries(catalog: Seq<ColleDataView>, cells: Seq<Seq<char>>, line: int) -> Result<
    Seq<Seq<ColleDataView>>,
    ParseError,
>
    decreases cells.len(),
{
    if cells.len() == 0 {
        Ok(seq![])
    } else {
        match row_entries(catalog, cells.drop_last(), line) {
            Err(e) => Err(e),
            Ok(es) => match cell_entries(catalog, split_on(cells.last(), '+')) {
                None => Err(
                    ParseError::UnknownColleId { line: line as usize, column: cells.len() as usize },
                ),
                Some(e) => Ok(es.push(e)),
            },
        }
    }
}

/// The sessions of `entries` in week `w`.
pub open spec fn week_instances(entries: Seq<ColleDataView>, anchors: Seq<int>, w: int) -> Seq<
    ColleView,
> {
    entries.map_values(|e: ColleDataView| instance_of(e, projected_day(anchors, w, e.jour)))
}

/// Every entry of a cell on every week of its column, weeks outermost.
pub open spec fn expand(weeks: Seq<int>, entries: Seq<ColleDataView>, anchors: Seq<int>) -> Seq<
    ColleView,
>
    decreases weeks.len(),
{
    if weeks.len() == 0 {
        seq![]
    } else {
        expand(weeks.drop_last(), entries, anchors) + week_instances(entries, anchors, weeks.last())
    }
}

/// The sessions of the first `j` cells of a row, in column order.
pub open spec fn row_instances(
    columns: Seq<Seq<int>>,
    cells: Seq<Seq<ColleDataView>>,
    anchors: Seq<int>,
    j: int,
) -> Seq<ColleView>
    decreases j,
{
    if j <= 0 {
        seq![]
    } else {
        row_instances(columns, cells, anchors, j - 1) + expand(columns[j - 1], cells[j - 1], anchors)
    }
}

/// The sessions of the group row `line` (at line `line_no`), in grid order.
pub open spec fn resolved_row(
    catalog: Seq<ColleDataView>,
    columns: Seq<Seq<int>>,
    anchors: Seq<int>,
    line: Seq<char>,
    line_no: int,
) -> Result<Seq<ColleView>, ParseError> {
    let cells = tokens_of(line);
    if cells.len() != columns.len() {
        Err(ParseError::GridShape { line: line_no as usize })
    } else {
        match row_entries(catalog, cells, line_no) {
            Err(e) => Err(e),
            Ok(es) => Ok(row_instances(columns, es, anchors, columns.len() as int)),
        }
    }
}

/// The sessions of each group row, the first row being at line 2.
pub open spec fn resolved_rows(
    catalog: Seq<ColleDataView>,
    columns: Seq<Seq<int>>,
    anchors: Seq<int>,
    rows: Seq<Seq<char>>,
) -> Result<Seq<Seq<ColleView>>, ParseError>
    decreases rows.len(),
{
    if rows.len() == 0 {
        Ok(seq![])
    } else {
        match resolved_rows(catalog, columns, anchors, rows.drop_last()) {
            Err(e) => Err(e),
            Ok(gs) => match resolved_row(catalog, columns, anchors, rows.last(), rows.len() + 1 as int) {
                Err(e) => Err(e),
                Ok(g) => Ok(gs.push(g)),
            },
        }
    }
}

/// The sessions of every group of the grid's lines, each group in grid order.
pub open spec fn resolved_grid(
    catalog: Seq<ColleDataView>,
    anchors: Seq<int>,
    ls: Seq<Seq<char>>,
) -> Result<Seq<Seq<ColleView>>, ParseError> {
    if ls.len() == 0 {
        Err(ParseError::GridShape { line: 1 })
    } else {
        match parsed_columns(tokens_of(ls[0]), anchors.len() as int) {
            Err(e) => Err(e),
            Ok(cols) => resolved_rows(catalog, cols, anchors, ls.drop_first()),
        }
    }
}

pub open spec fn column_views(c: Seq<Vec<usize>>) -> Seq<Seq<int>> {
    c.map_values(|v: Vec<usize>| v@.map_values(|w: usize| w as int))
}

pub open spec fn entries_of(catalog: Seq<ColleDataView>, idxs: Seq<usize>) -> Seq<ColleDataView> {
    idxs.map_values(|i: usize| catalog[i as int])
}

pub open spec fn weeks_in_range(columns: Seq<Seq<int>>, n: int) -> bool {
    forall|j: int, k: int|
        0 <= j < columns.len() && 0 <= k < columns[j].len() ==> 1 <= #[trigger] columns[j][k] <= n
}

proof fn lemma_week_numbers_prefix(ps: Seq<Seq<char>>, i: int)
    requires
        0 <= i <= ps.len(),
        week_numbers(ps.subrange(0, i)) is None,
    ensures
        week_numbers(ps) is None,
    decreases ps.len(),
{
    if i < ps.len() {
        assert(ps.drop_last().subrange(0, i) =~= ps.subrange(0, i));
        lemma_week_numbers_prefix(ps.drop_last(), i);
    } else {
        assert(ps.subrange(0, i) =~= ps);
    }
}

proof fn lemma_first_bad_prefix(ws: Seq<int>, n: int, i: int)
    requires
        0 <= i <= ws.len(),
        first_bad_week(ws.subrange(0, i), n) is Some,
    ensures
        first_bad_week(ws, n) == first_bad_week(ws.subrange(0, i), n),
    decreases ws.len(),
{
    if i < ws.len() {
        assert(ws.drop_last().subrange(0, i) =~= ws.subrange(0, i));
        lemma_first_bad_prefix(ws.drop_last(), n, i);
    } else {
        assert(ws.subrange(0, i) =~= ws);
    }
}

proof fn lemma_columns_prefix(toks: Seq<Seq<char>>, n: int, i: int)
    requires
        0 <= i <= toks.len(),
        parsed_columns(toks.subrange(0, i), n) is Err,
    ensures
        parsed_columns(toks, n) == parsed_columns(toks.subrange(0, i), n),
    decreases toks.len(),
{
    if i < toks.len() {
        assert(toks.drop_last().subrange(0, i) =~= toks.subrange(0, i));
        lemma_columns_prefix(toks.drop_last(), n, i);
    } else {
        assert(toks.subrange(0, i) =~= toks);
    }
}

proof fn lemma_lookup_prefix(catalog: Seq<ColleDataView>, t: Seq<char>, i: int)
    requires
        0 <= i <= catalog.len(),
        lookup(catalog.subrange(0, i), t) is Some,
    ensures
        lookup(catalog, t) == lookup(catalog.subrange(0, i), t),
    decreases catalog.len(),
{
    if i < catalog.len() {
        assert(catalog.drop_last().subrange(0, i) =~= catalog.subrange(0, i));
        lemma_lookup_prefix(catalog.drop_last(), t, i);
    } else {
        assert(catalog.subrange(0, i) =~= catalog);
    }
}

proof fn lemma_cell_prefix(catalog: Seq<ColleDataView>, ps: Seq<Seq<char>>, i: int)
    requires
        0 <= i <= ps.len(),
        cell_entries(catalog, ps.subrange(0, i)) is None,
    ensures
        cell_entries(catalog, ps) is None,
    decreases ps.len(),
{
    if i < ps.len() {
        assert(ps.drop_last().subrange(0, i) =~= ps.subrange(0, i));
        lemma_cell_prefix(catalog, ps.drop_last(), i);
    } else {
        assert(ps.subrange(0, i) =~= ps);
    }
}

proof fn lemma_row_entries_prefix(catalog: Seq<ColleDataView>, cells: Seq<Seq<char>>, line: int, i: int)
    requires
        0 <= i <= cells.len(),
        row_entries(catalog, cells.subrange(0, i), line) is Err,
    ensures
        row_entries(catalog, cells, line) == row_entries(catalog, cells.subrange(0, i), line),
    decreases cells.len(),
{
    if i < cells.len() {
        assert(cells.drop_last().subrange(0, i) =~= cells.subrange(0, i));
        lemma_row_entries_prefix(catalog, cells.drop_last(), line, i);
    } else {
        assert(cells.subrange(0, i) =~= cells);
    }
}

proof fn lemma_rows_prefix(
    catalog: Seq<ColleDataView>,
    columns: Seq<Seq<int>>,
    anchors: Seq<int>,
    rows: Seq<Seq<char>>,
    i: int,
)
    requires
        0 <= i <= rows.len(),
        resolved_rows(catalog, columns, anchors, rows.subrange(0, i)) is Err,
    ensures
        resolved_rows(catalog, columns, anchors, rows) == resolved_rows(
            catalog,
            columns,
            anchors,
            rows.subrange(0, i),
        ),
    decreases rows.len(),
{
    if i < rows.len() {
        assert(rows.drop_last().subrange(0, i) =~= rows.subrange(0, i));
        lemma_rows_prefix(catalog, columns, anchors, rows.drop_last(), i);
    } else {
        assert(rows.subrange(0, i) =~= rows);
    }
}

proof fn lemma_first_bad_none(ws: Seq<int>, n: int)
    requires
        first_bad_week(ws, n) is None,
    ensures
        forall|k: int| 0 <= k < ws.len() ==> 1 <= #[trigger] ws[k] <= n,
    decreases ws.len(),
{
    if ws.len() > 0 {
        lemma_first_bad_none(ws.drop_last(), n);
        assert forall|k: int| 0 <= k < ws.len() implies 1 <= #[trigger] ws[k] <= n by {
            if k < ws.len() - 1 {
                assert(ws[k] == ws.drop_last()[k]);
            }
        }
    }
}

fn parse_week_list(t: &[char]) -> (r: Option<Vec<usize>>)
    ensures
        r matches Some(v) ==> week_numbers(split_on(t@, '-')) == Some(
            v@.map_values(|w: usize| w as int),
        ),
        r is None ==> week_numbers(split_on(t@, '-')) is None,
{
    let ps = split(t, '-');
    let ghost pv = split_on(t@, '-');
    let mut out: Vec<usize> = Vec::new();
    let mut i: usize = 0;
    assert(pv.subrange(0, 0) =~= Seq::<Seq<char>>::empty());
    assert(out@.map_values(|w: usize| w as int) =~= Seq::<int>::empty());
    while i < ps.len()
        invariant
            views_of(ps@) == pv,
            pv == split_on(t@, '-'),
            i <= ps@.len(),
            week_numbers(pv.subrange(0, i as int)) == Some(out@.map_values(|w: usize| w as int)),
        decreases ps@.len() - i,
    {
        assert(pv.subrange(0, i + 1).drop_last() =~= pv.subrange(0, i as int));
        assert(pv.subrange(0, i + 1).last() == pv[i as int]);
        assert(ps@[i as int]@ == pv[i as int]);
        match parse_number(ps[i].as_slice(), usize::MAX as u64) {
            Some(n) => {
                let ghost before = out@.map_values(|w: usize| w as int);
                out.push(n as usize);
                assert(out@.map_values(|w: usize| w as int) =~= before.push(n as int));
            },
            None => {
                proof {
                    lemma_week_numbers_prefix(pv, i + 1);
                }
                return None;
            },
        }
        i = i + 1;
    }
    assert(pv.subrange(0, ps@.len() as int) =~= pv);
    Some(out)
}

/// The grid's columns from its header tokens, each week checked against an
/// anchor table of `n` weeks.
fn parse_columns(toks: &Vec<Vec<char>>, n: usize) -> (r: Result<Vec<Vec<usize>>, ParseError>)
    ensures
        parsed_columns(views_of(toks@), n as int) matches Ok(c) ==> r matches Ok(v) && column_views(
            v@,
        ) == c && weeks_in_range(c, n as int),
        parsed_columns(views_of(toks@), n as int) matches Err(e) ==> r == Err::<
            Vec<Vec<usize>>,
            ParseError,
        >(e),
{
    let ghost tv = views_of(toks@);
    let mut out: Vec<Vec<usize>> = Vec::new();
    let mut j: usize = 0;
    assert(tv.subrange(0, 0) =~= Seq::<Seq<char>>::empty());
    assert(column_views(out@) =~= Seq::<Seq<int>>::empty());
    while j < toks.len()
        invariant
            tv == views_of(toks@),
            j <= toks@.len(),
            parsed_columns(tv.subrange(0, j as int), n as int) == Ok::<Seq<Seq<int>>, ParseError>(
                column_views(out@),
            ),
            weeks_in_range(column_views(out@), n as int),
        decreases toks@.len() - j,
    {
        assert(tv.subrange(0, j + 1).drop_last() =~= tv.subrange(0, j as int));
        assert(tv.subrange(0, j + 1).last() == tv[j as int]);
        assert(toks@[j as int]@ == tv[j as int]);
        let ws = match parse_week_list(toks[j].as_slice()) {
            Some(ws) => ws,
            None => {
                proof {
                    assert(parsed_columns(tv.subrange(0, j + 1), n as int) == Err::<
                        Seq<Seq<int>>,
                        ParseError,
                    >(ParseError::GridShape { line: 1 }));
                    lemma_columns_prefix(tv, n as int, j + 1);
                }
                return Err(ParseError::GridShape { line: 1 });
            },
        };
        let ghost wv = ws@.map_values(|w: usize| w as int);
        let column = j + 1;
        let mut k: usize = 0;
        assert(wv.subrange(0, 0) =~= Seq::<int>::empty());
        while k < ws.len()
            invariant
                wv == ws@.map_values(|w: usize| w as int),
                week_numbers(split_on(tv[j as int], '-')) == Some(wv),
                tv == views_of(toks@),
                j < toks@.len(),
                column == j + 1,
                parsed_columns(tv.subrange(0, j as int), n as int) == Ok::<Seq<Seq<int>>, ParseError>(
                    column_views(out@),
                ),
                tv.subrange(0, j + 1).drop_last() == tv.subrange(0, j as int),
                tv.subrange(0, j + 1).last() == tv[j as int],
                k <= ws@.len(),
                first_bad_week(wv.subrange(0, k as int), n as int) is None,
            decreases ws@.len() - k,
        {
            assert(wv.subrange(0, k + 1).drop_last() =~= wv.subrange(0, k as int));
            let w = ws[k];
            if w < 1 || w > n {
                proof {
                    assert(first_bad_week(wv.subrange(0, k + 1), n as int) == Some(w as int));
                    lemma_first_bad_prefix(wv, n as int, k + 1);
                    assert(parsed_columns(tv.subrange(0, j + 1), n as int) == Err::<
                        Seq<Seq<int>>,
                        ParseError,
                    >(ParseError::WeekRange { column: (j + 1) as usize, week: w }));
                    lemma_columns_prefix(tv, n as int, j + 1);
                }
                return Err(ParseError::WeekRange { column, week: w });
            }
            k = k + 1;
        }
        assert(wv.subrange(0, ws@.len() as int) =~= wv);
        proof {
            lemma_first_bad_none(wv, n as int);
        }
        let ghost before = column_views(out@);
        out.push(ws);
        assert(column_views(out@) =~= before.push(wv));
        j = j + 1;
    }
    assert(tv.subrange(0, toks@.len() as int) =~= tv);
    Ok(out)
}

/// The index of the first catalog entry whose compact type form is `t`.
fn find_entry(catalog: &Vec<ColleData>, t: &[char]) -> (r: Option<usize>)
    ensures
        r matches Some(i) ==> lookup(catalog_views(catalog@), t@) == Some(i as int) && i
            < catalog@.len(),
        r is None ==> lookup(catalog_views(catalog@), t@) is None,
{
    let ghost cv = catalog_views(catalog@);
    let mut i: usize = 0;
    assert(cv.subrange(0, 0) =~= Seq::<ColleDataView>::empty());
    while i < catalog.len()
        invariant
            cv == catalog_views(catalog@),
            i <= catalog@.len(),
            lookup(cv.subrange(0, i as int), t@) is None,
        decreases catalog@.len() - i,
    {
        assert(cv.subrange(0, i + 1).drop_last() =~= cv.subrange(0, i as int));
        assert(cv.subrange(0, i + 1).last() == catalog@[i as int]@);
        let name = catalog[i].id.to_string();
        let nc = chars_of(name.as_str());
        if chars_eq(nc.as_slice(), t) {
            proof {
                lemma_lookup_prefix(cv, t@, i + 1);
            }
            return Some(i);
        }
        i = i + 1;
    }
    assert(cv.subrange(0, catalog@.len() as int) =~= cv);
    None
}

/// Appends the sessions of the cell entries `idxs` on every week of `col`.
fn expand_into(
    col: &Vec<usize>,
    idxs: &Vec<usize>,
    catalog: &Vec<ColleData>,
    anchors: &Vec<Date>,
    out: &mut Vec<Colle>,
)
    requires
        forall|k: int| 0 <= k < col@.len() ==> 1 <= #[trigger] col@[k] <= anchors@.len(),
        forall|k: int| 0 <= k < idxs@.len() ==> #[trigger] idxs@[k] < catalog@.len(),
        forall|i: int| 0 <= i < catalog@.len() ==> hours_valid(#[trigger] catalog@[i]@),
    ensures
        colle_views(final(out)@) == colle_views(old(out)@) + expand(
            col@.map_values(|w: usize| w as int),
            entries_of(catalog_views(catalog@), idxs@),
            date_views(anchors@),
        ),
{
    let ghost wv = col@.map_values(|w: usize| w as int);
    let ghost es = entries_of(catalog_views(catalog@), idxs@);
    let ghost av = date_views(anchors@);
    let ghost start = colle_views(out@);
    let mut a: usize = 0;
    assert(wv.subrange(0, 0) =~= Seq::<int>::empty());
    assert(colle_views(out@) =~= start + expand(wv.subrange(0, 0), es, av));
    while a < col.len()
        invariant
            wv == col@.map_values(|w: usize| w as int),
            es == entries_of(catalog_views(catalog@), idxs@),
            av == date_views(anchors@),
            start == colle_views(old(out)@),
            forall|k: int| 0 <= k < col@.len() ==> 1 <= #[trigger] col@[k] <= anchors@.len(),
            forall|k: int| 0 <= k < idxs@.len() ==> #[trigger] idxs@[k] < catalog@.len(),
            forall|i: int| 0 <= i < catalog@.len() ==> hours_valid(#[trigger] catalog@[i]@),
            a <= col@.len(),
            colle_views(out@) == start + expand(wv.subrange(0, a as int), es, av),
        decreases col@.len() - a,
    {
        let w = col[a];
        assert(1 <= col@[a as int] <= anchors@.len());
        let ghost mid = colle_views(out@);
        let mut b: usize = 0;
        assert(es.subrange(0, 0) =~= Seq::<ColleDataView>::empty());
        assert(colle_views(out@) =~= mid + week_instances(es.subrange(0, 0), av, w as int));
        while b < idxs.len()
            invariant
                es == entries_of(catalog_views(catalog@), idxs@),
                av == date_views(anchors@),
                1 <= w <= anchors@.len(),
                forall|k: int| 0 <= k < idxs@.len() ==> #[trigger] idxs@[k] < catalog@.len(),
                forall|i: int| 0 <= i < catalog@.len() ==> hours_valid(#[trigger] catalog@[i]@),
                b <= idxs@.len(),
                colle_views(out@) == mid + week_instances(es.subrange(0, b as int), av, w as int),
            decreases idxs@.len() - b,
        {
            let i = idxs[b];
            assert(i < catalog@.len());
            let entry = &catalog[i];
            assert(hours_valid(catalog@[i as int]@));
            let date = project(anchors.as_slice(), w, entry.jour.0);
            let c = Colle::from_data_and_date(date, entry.duplicate()).unwrap();
            let ghost before = colle_views(out@);
            out.push(c);
            proof {
                assert(es[b as int] == catalog@[i as int]@);
                assert(es.subrange(0, b + 1) =~= es.subrange(0, b as int).push(es[b as int]));
                assert(week_instances(es.subrange(0, b + 1), av, w as int) =~= week_instances(
                    es.subrange(0, b as int),
                    av,
                    w as int,
                ).push(c@));
                assert(colle_views(out@) =~= before.push(c@));
            }
            b = b + 1;
        }
        proof {
            assert(es.subrange(0, idxs@.len() as int) =~= es);
            assert(wv.subrange(0, a + 1).drop_last() =~= wv.subrange(0, a as int));
            assert(wv.subrange(0, a + 1).last() == w as int);
            assert(colle_views(out@) =~= start + expand(wv.subrange(0, a + 1), es, av));
        }
        a = a + 1;
    }
    assert(wv.subrange(0, col@.len() as int) =~= wv);
}

/// The sessions of one group row, at line `line_no`, in grid order.
fn resolve_row(
    line: &[char],
    line_no: usize,
    catalog: &Vec<ColleData>,
    columns: &Vec<Vec<usize>>,
    anchors: &Vec<Date>,
) -> (r: Result<Vec<Colle>, ParseError>)
    requires
        weeks_in_range(column_views(columns@), anchors@.len() as int),
        forall|i: int| 0 <= i < catalog@.len() ==> hours_valid(#[trigger] catalog@[i]@),
    ensures
        resolved_row(
            catalog_views(catalog@),
            column_views(columns@),
            date_views(anchors@),
            line@,
            line_no as int,
        ) matches Ok(g) ==> r matches Ok(v) && colle_views(v@) == g,
        resolved_row(
            catalog_views(catalog@),
            column_views(columns@),
            date_views(anchors@),
            line@,
            line_no as int,
        ) matches Err(e) ==> r == Err::<Vec<Colle>, ParseError>(e),
{
    let ghost cv = catalog_views(catalog@);
    let ghost colv = column_views(columns@);
    let ghost av = date_views(anchors@);
    let cells = tokens(line);
    let ghost tv = tokens_of(line@);
    if cells.len() != columns.len() {
        return Err(ParseError::GridShape { line: line_no });
    }
    let mut found: Vec<Vec<usize>> = Vec::new();
    let mut j: usize = 0;
    assert(tv.subrange(0, 0) =~= Seq::<Seq<char>>::empty());
    assert(found@.map_values(|ix: Vec<usize>| entries_of(cv, ix@)) =~= Seq::<
        Seq<ColleDataView>,
    >::empty());
    while j < cells.len()
        invariant
            cv == catalog_views(catalog@),
            tv == tokens_of(line@),
            views_of(cells@) == tv,
            tv.len() == column_views(columns@).len(),
            j <= cells@.len(),
            found@.len() == j,
            row_entries(cv, tv.subrange(0, j as int), line_no as int) == Ok::<
                Seq<Seq<ColleDataView>>,
                ParseError,
            >(found@.map_values(|ix: Vec<usize>| entries_of(cv, ix@))),
            forall|x: int, k: int|
                0 <= x < found@.len() && 0 <= k < found@[x]@.len() ==> #[trigger] found@[x]@[k]
                    < catalog@.len(),
        decreases cells@.len() - j,
    {
        assert(tv.subrange(0, j + 1).drop_last() =~= tv.subrange(0, j as int));
        assert(tv.subrange(0, j + 1).last() == tv[j as int]);
        assert(cells@[j as int]@ == tv[j as int]);
        let column = j + 1;
        let ps = split(cells[j].as_slice(), '+');
        let ghost pv = split_on(tv[j as int], '+');
        let mut idxs: Vec<usize> = Vec::new();
        let mut k: usize = 0;
        assert(pv.subrange(0, 0) =~= Seq::<Seq<char>>::empty());
        assert(entries_of(cv, idxs@) =~= Seq::<ColleDataView>::empty());
        while k < ps.len()
            invariant
                cv == catalog_views(catalog@),
                pv == split_on(tv[j as int], '+'),
                views_of(ps@) == pv,
                k <= ps@.len(),
                cell_entries(cv, pv.subrange(0, k as int)) == Some(entries_of(cv, idxs@)),
                forall|m: int| 0 <= m < idxs@.len() ==> #[trigger] idxs@[m] < catalog@.len(),
                column == j + 1,
                j < tv.len(),
                tv == tokens_of(line@),
                tv.len() == column_views(columns@).len(),
                row_entries(cv, tv.subrange(0, j as int), line_no as int) == Ok::<
                    Seq<Seq<ColleDataView>>,
                    ParseError,
                >(found@.map_values(|ix: Vec<usize>| entries_of(cv, ix@))),
                tv.subrange(0, j + 1).drop_last() == tv.subrange(0, j as int),
                tv.subrange(0, j + 1).last() == tv[j as int],
            decreases ps@.len() - k,
        {
            assert(pv.subrange(0, k + 1).drop_last() =~= pv.subrange(0, k as int));
            assert(pv.subrange(0, k + 1).last() == pv[k as int]);
            assert(ps@[k as int]@ == pv[k as int]);
            match find_entry(catalog, ps[k].as_slice()) {
                Some(i) => {
                    let ghost before = entries_of(cv, idxs@);
                    idxs.push(i);
                    assert(entries_of(cv, idxs@) =~= before.push(cv[i as int]));
                },
                None => {
                    proof {
                        lemma_cell_prefix(cv, pv, k + 1);
                        let sub = tv.subrange(0, j + 1);
                        assert(sub.len() == j + 1);
                        assert(cell_entries(cv, split_on(sub.last(), '+')) is None);
                        assert(row_entries(cv, sub.drop_last(), line_no as int) is Ok);
                        assert(row_entries(cv, tv.subrange(0, j + 1), line_no as int) == Err::<
                            Seq<Seq<ColleDataView>>,
                            ParseError,
                        >(ParseError::UnknownColleId { line: line_no, column: column }));
                        lemma_row_entries_prefix(cv, tv, line_no as int, j + 1);
                    }
                    return Err(ParseError::UnknownColleId { line: line_no, column });
                },
            }
            k = k + 1;
        }
        assert(pv.subrange(0, ps@.len() as int) =~= pv);
        let ghost before = found@.map_values(|ix: Vec<usize>| entries_of(cv, ix@));
        let ghost ie = entries_of(cv, idxs@);
        found.push(idxs);
        assert(found@.map_values(|ix: Vec<usize>| entries_of(cv, ix@)) =~= before.push(ie));
        j = j + 1;
    }
    assert(tv.subrange(0, cells@.len() as int) =~= tv);
    let ghost fe = found@.map_values(|ix: Vec<usize>| entries_of(cv, ix@));
    let mut out: Vec<Colle> = Vec::new();
    let mut c: usize = 0;
    assert(colle_views(out@) =~= Seq::<ColleView>::empty());
    while c < columns.len()
        invariant
            cv == catalog_views(catalog@),
            colv == column_views(columns@),
            av == date_views(anchors@),
            fe == found@.map_values(|ix: Vec<usize>| entries_of(cv, ix@)),
            found@.len() == columns@.len(),
            c <= columns@.len(),
            weeks_in_range(colv, anchors@.len() as int),
            forall|i: int| 0 <= i < catalog@.len() ==> hours_valid(#[trigger] catalog@[i]@),
            forall|x: int, k: int|
                0 <= x < found@.len() && 0 <= k < found@[x]@.len() ==> #[trigger] found@[x]@[k]
                    < catalog@.len(),
            colle_views(out@) == row_instances(colv, fe, av, c as int),
        decreases columns@.len() - c,
    {
        proof {
            assert forall|k: int| 0 <= k < columns@[c as int]@.len() implies 1 <= #[trigger] columns@[
                c as int
            ]@[k] <= anchors@.len() by {
                assert(colv[c as int][k] == columns@[c as int]@[k] as int);
            }
            assert forall|k: int| 0 <= k < found@[c as int]@.len() implies #[trigger] found@[
                c as int
            ]@[k] < catalog@.len() by {
            }
        }
        expand_into(&columns[c], &found[c], catalog, anchors, &mut out);
        assert(colv[c as int] == columns@[c as int]@.map_values(|w: usize| w as int));
        assert(fe[c as int] == entries_of(cv, found@[c as int]@));
        c = c + 1;
    }
    Ok(out)
}

/// The colles of every group of the colloscope grid, each group ascending by
/// start: for every column, every colle type of the group's cell on every
/// week of the column.
pub fn parse_colloscope(colloscope: &str, colle_list: &Vec<ColleData>, weeks: &Vec<Date>) -> (r:
    Result<Vec<Vec<Colle>>, ParseError>)
    requires
        forall|i: int| 0 <= i < colle_list@.len() ==> hours_valid(#[trigger] colle_list@[i]@),
    ensures
        resolved_grid(catalog_views(colle_list@), date_views(weeks@), lines_of(colloscope@)) matches Ok(
            gs,
        ) ==> r matches Ok(v) && v@.len() == gs.len() && forall|g: int|
            0 <= g < gs.len() ==> sorted_by_start(colle_views(#[trigger] v@[g]@)) && colle_views(
                v@[g]@,
            ).to_multiset() == gs[g].to_multiset(),
        resolved_grid(catalog_views(colle_list@), date_views(weeks@), lines_of(colloscope@)) matches Err(
            e,
        ) ==> r == Err::<Vec<Vec<Colle>>, ParseError>(e),
{
    let ghost cv = catalog_views(colle_list@);
    let ghost av = date_views(weeks@);
    let t = chars_of(colloscope);
    let ls = lines(t.as_slice());
    let ghost lv = lines_of(colloscope@);
    if ls.len() == 0 {
        return Err(ParseError::GridShape { line: 1 });
    }
    assert(ls@[0]@ == lv[0]);
    let header = tokens(ls[0].as_slice());
    assert(views_of(header@) == tokens_of(lv[0]));
    assert(av.len() == weeks@.len());
    let columns = match parse_columns(&header, weeks.len()) {
        Ok(c) => c,
        Err(e) => return Err(e),
    };
    let ghost colv = column_views(columns@);
    let ghost rows = lv.drop_first();
    let mut groups: Vec<Vec<Colle>> = Vec::new();
    let mut i: usize = 1;
    assert(rows.subrange(0, 0) =~= Seq::<Seq<char>>::empty());
    while i < ls.len()
        invariant
            cv == catalog_views(colle_list@),
            av == date_views(weeks@),
            lv == lines_of(colloscope@),
            views_of(ls@) == lv,
            rows == lv.drop_first(),
            colv == column_views(columns@),
            parsed_columns(tokens_of(lv[0]), av.len() as int) == Ok::<Seq<Seq<int>>, ParseError>(colv),
            weeks_in_range(colv, weeks@.len() as int),
            forall|k: int| 0 <= k < colle_list@.len() ==> hours_valid(#[trigger] colle_list@[k]@),
            1 <= i <= ls@.len(),
            resolved_rows(cv, colv, av, rows.subrange(0, i - 1)) is Ok,
            groups@.len() == i - 1,
            resolved_rows(cv, colv, av, rows.subrange(0, i - 1))->Ok_0.len() == i - 1,
            forall|g: int|
                0 <= g < groups@.len() ==> sorted_by_start(colle_views(#[trigger] groups@[g]@))
                    && colle_views(groups@[g]@).to_multiset() == resolved_rows(
                    cv,
                    colv,
                    av,
                    rows.subrange(0, i - 1),
                )->Ok_0[g].to_multiset(),
        decreases ls@.len() - i,
    {
        let ghost pre = rows.subrange(0, i - 1);
        let ghost next = rows.subrange(0, i as int);
        assert(next.drop_last() =~= pre);
        assert(next.last() == lv[i as int]);
        assert(ls@[i as int]@ == lv[i as int]);
        match resolve_row(ls[i].as_slice(), i + 1, colle_list, &columns, weeks) {
            Ok(row) => {
                let ghost gs = resolved_rows(cv, colv, av, pre)->Ok_0;
                let ghost rv = colle_views(row@);
                assert(resolved_row(cv, colv, av, next.last(), next.len() + 1 as int) == Ok::<
                    Seq<ColleView>,
                    ParseError,
                >(rv));
                let sorted = sort_by_start(row);
                let ghost old_groups = groups@;
                let ghost sv = colle_views(sorted@);
                groups.push(sorted);
                assert(resolved_rows(cv, colv, av, next)->Ok_0 == gs.push(rv));
                assert forall|g: int| 0 <= g < groups@.len() implies sorted_by_start(
                    colle_views(#[trigger] groups@[g]@),
                ) && colle_views(groups@[g]@).to_multiset() == resolved_rows(
                    cv,
                    colv,
                    av,
                    next,
                )->Ok_0[g].to_multiset() by {
                    if g < old_groups.len() {
                        assert(groups@[g] == old_groups[g]);
                        assert(sorted_by_start(colle_views(old_groups[g]@)));
                    } else {
                        assert(groups@[g]@ == sorted@);
                    }
                }
            },
            Err(e) => {
                proof {
                    lemma_rows_prefix(cv, colv, av, rows, i as int);
                }
                return Err(e);
            },
        }
        i = i + 1;
    }
    assert(rows.subrange(0, ls@.len() - 1) =~= rows);
    assert(resolved_grid(cv, av, lv) == resolved_rows(cv, colv, av, rows));
    Ok(groups)
}

proof fn lemma_cell_len(catalog: Seq<ColleDataView>, ps: Seq<Seq<char>>)
    ensures
        cell_entries(catalog, ps) matches Some(es) ==> es.len() == ps.len(),
    decreases ps.len(),
{
    if ps.len() > 0 {
        lemma_cell_len(catalog, ps.drop_last());
    }
}

proof fn lemma_expand_len(weeks: Seq<int>, entries: Seq<ColleDataView>, anchors: Seq<int>)
    ensures
        expand(weeks, entries, anchors).len() == weeks.len() * entries.len(),
    decreases weeks.len(),
{
    if weeks.len() > 0 {
        lemma_expand_len(weeks.drop_last(), entries, anchors);
        assert((weeks.len() - 1) * entries.len() + entries.len() == weeks.len() * entries.len())
            by (nonlinear_arith);
    }
}

/// A cell whose `+`-joined ids `ids` all name catalog entries yields, on a
/// column of weeks `weeks`, exactly one session per (week, id) pair.
pub proof fn lemma_cross_product_size(
    catalog: Seq<ColleDataView>,
    ids: Seq<Seq<char>>,
    weeks: Seq<int>,
    anchors: Seq<int>,
)
    requires
        cell_entries(catalog, ids) is Some,
    ensures
        expand(weeks, cell_entries(catalog, ids)->0, anchors).len() == weeks.len() * ids.len(),
{
    lemma_cell_len(catalog, ids);
    lemma_expand_len(weeks, cell_entries(catalog, ids)->0, anchors);
}

/// A grid cell naming a colle type absent from the catalog makes its row
/// fail; when no earlier cell of the row failed, the failure is
/// `UnknownColleId` at that cell. No session is ever dropped silently.
pub proof fn lemma_unknown_id_rejected(
    catalog: Seq<ColleDataView>,
    columns: Seq<Seq<int>>,
    anchors: Seq<int>,
    line: Seq<char>,
    line_no: int,
    j: int,
    k: int,
)
    requires
        tokens_of(line).len() == columns.len(),
        0 <= j < tokens_of(line).len(),
        0 <= k < split_on(tokens_of(line)[j], '+').len(),
        lookup(catalog, split_on(tokens_of(line)[j], '+')[k]) is None,
    ensures
        resolved_row(catalog, columns, anchors, line, line_no) is Err,
        row_entries(catalog, tokens_of(line).subrange(0, j), line_no) is Ok ==> resolved_row(
            catalog,
            columns,
            anchors,
            line,
            line_no,
        ) == Err::<Seq<ColleView>, ParseError>(
            ParseError::UnknownColleId { line: line_no as usize, column: (j + 1) as usize },
        ),
{
    let cells = tokens_of(line);
    let ps = split_on(cells[j], '+');
    let sub = cells.subrange(0, j + 1);
    assert(ps.subrange(0, k + 1).drop_last() =~= ps.subrange(0, k));
    assert(ps.subrange(0, k + 1).last() == ps[k]);
    lemma_cell_prefix(catalog, ps, k + 1);
    assert(sub.drop_last() =~= cells.subrange(0, j));
    assert(sub.last() == cells[j]);
    assert(row_entries(catalog, sub, line_no) is Err);
    lemma_row_entries_prefix(catalog, cells, line_no, j + 1);
}

/// A row that fails makes the whole grid fail: no partial schedule.
pub proof fn lemma_failed_row_fails_grid(
    catalog: Seq<ColleDataView>,
    columns: Seq<Seq<int>>,
    anchors: Seq<int>,
    rows: Seq<Seq<char>>,
    i: int,
)
    requires
        0 <= i < rows.len(),
        resolved_row(catalog, columns, anchors, rows[i], i + 2) is Err,
    ensures
        resolved_rows(catalog, columns, anchors, rows) is Err,
{
    let sub = rows.subrange(0, i + 1);
    assert(sub.drop_last() =~= rows.subrange(0, i));
    assert(sub.last() == rows[i]);
    assert(resolved_rows(catalog, columns, anchors, sub) is Err);
    lemma_rows_prefix(catalog, columns, anchors, rows, i + 1);
}

/// The sessions of every group of a dataset, each group in grid order: the
/// catalog is parsed first, then the week anchors, then the grid.
pub open spec fn resolved_dataset(
    catalog_text: Seq<char>,
    weeks_text: Seq<char>,
    grid_text: Seq<char>,
) -> Result<Seq<Seq<ColleView>>, ParseError> {
    match parsed_catalog(lines_of(catalog_text)) {
        Err(e) => Err(e),
        Ok(c) => match parsed_anchors(lines_of(weeks_text)) {
            Err(e) => Err(e),
            Ok(a) => resolved_grid(c, a, lines_of(grid_text)),
        },
    }
}

/// Group `g` (0-based) of a resolved dataset holds exactly the sessions `s`,
/// ascending by start.
pub open spec fn group_matches(group: Group, guild_id: u64, g: int, s: Seq<ColleView>) -> bool {
    &&& group.guild_id == guild_id
    &&& group.id == g + 1
    &&& sorted_by_start(colle_views(group.colles@))
    &&& colle_views(group.colles@).to_multiset() == s.to_multiset()
}

/// The groups of a dataset given as its three tables, numbered from 1 in grid
/// order; instructors are looked up in (or added to) `profs`.
pub fn read_groups_data(
    guild_id: u64,
    catalog_text: &str,
    weeks_text: &str,
    grid_text: &str,
    profs: &mut ProfRegistry,
) -> (r: Result<Vec<Group>, ParseError>)
    ensures
        resolved_dataset(catalog_text@, weeks_text@, grid_text@) matches Ok(gs) ==> r matches Ok(v)
            && v@.len() == gs.len() && forall|g: int|
            0 <= g < gs.len() ==> group_matches(#[trigger] v@[g], guild_id, g, gs[g]),
        resolved_dataset(catalog_text@, weeks_text@, grid_text@) matches Err(e) ==> r == Err::<
            Vec<Group>,
            ParseError,
        >(e),
{
    let catalog = match parse_catalog(catalog_text, profs) {
        Ok(c) => c,
        Err(e) => return Err(e),
    };
    let weeks = match read_weeks_data(weeks_text) {
        Ok(w) => w,
        Err(e) => return Err(e),
    };
    let mut rest = match parse_colloscope(grid_text, &catalog, &weeks) {
        Ok(g) => g,
        Err(e) => return Err(e),
    };
    assert(parsed_catalog(lines_of(catalog_text@)) is Ok);
    assert(parsed_anchors(lines_of(weeks_text@)) is Ok);
    assert(resolved_dataset(catalog_text@, weeks_text@, grid_text@) == resolved_grid(
        catalog_views(catalog@),
        date_views(weeks@),
        lines_of(grid_text@),
    ));
    let ghost gs = resolved_dataset(catalog_text@, weeks_text@, grid_text@)->Ok_0;
    let ghost all = rest@;
    let mut out: Vec<Group> = Vec::new();
    assert(rest@ =~= all.subrange(0, all.len() as int));
    let total = rest.len();
    while rest.len() > 0
        invariant
            all.len() == gs.len(),
            all.len() == total,
            forall|g: int|
                0 <= g < gs.len() ==> sorted_by_start(colle_views(#[trigger] all[g]@)) && colle_views(
                    all[g]@,
                ).to_multiset() == gs[g].to_multiset(),
            out@.len() + rest@.len() == all.len(),
            rest@ == all.subrange(out@.len() as int, all.len() as int),
            forall|g: int| 0 <= g < out@.len() ==> group_matches(#[trigger] out@[g], guild_id, g, gs[g]),
        decreases rest@.len(),
    {
        let colles = rest.remove(0);
        let id = out.len() + 1;
        out.push(Group { guild_id, id, colles });
        assert(rest@ =~= all.subrange(out@.len() as int, all.len() as int));
        assert(group_matches(out@[out@.len() - 1], guild_id, out@.len() - 1, gs[out@.len() - 1]));
    }
    Ok(out)
}

/// The first group of `gs` numbered `id`.
pub open spec fn first_group(gs: Seq<Group>, id: GroupId) -> Option<Group>
    decreases gs.len(),
{
    if gs.len() == 0 {
        None
    } else {
        match first_group(gs.drop_last(), id) {
            Some(g) => Some(g),
            None => if gs.last().id == id {
                Some(gs.last())
            } else {
                None
            },
        }
    }
}

proof fn lemma_first_group_prefix(gs: Seq<Group>, id: GroupId, i: int)
    requires
        0 <= i <= gs.len(),
        first_group(gs.subrange(0, i), id) is Some,
    ensures
        first_group(gs, id) == first_group(gs.subrange(0, i), id),
    decreases gs.len(),
{
    if i < gs.len() {
        assert(gs.drop_last().subrange(0, i) =~= gs.subrange(0, i));
        lemma_first_group_prefix(gs.drop_last(), id, i);
    } else {
        assert(gs.subrange(0, i) =~= gs);
    }
}

/// One `- ` line per colle, each after a line break, types in compact form.
pub open spec fn colle_lines(cs: Seq<ColleView>) -> Seq<char>
    decreases cs.len(),
{
    if cs.len() == 0 {
        seq![]
    } else {
        colle_lines(cs.drop_last()) + "\n- "@ + colle_text(cs.last(), ColleStringFormat::Implicit)
    }
}

/// A group's part of the summary message: its heading, then its next two colles.
pub open spec fn group_block(g: Group, ghosts: Seq<GroupId>, now: int) -> Seq<char> {
    "\n### Groupe "@ + decimal_text(g.id as nat) + (if ghosts.contains(g.id) {
        " (fantôme 👻)"@
    } else {
        ""@
    }) + " "@ + colle_lines(first_n(upcoming(colle_views(g.colles@), now), 2))
}

pub open spec fn groups_text(gs: Seq<Group>, ghosts: Seq<GroupId>, now: int) -> Seq<char>
    decreases gs.len(),
{
    if gs.len() == 0 {
        seq![]
    } else {
        groups_text(gs.drop_last(), ghosts, now) + group_block(gs.last(), ghosts, now)
    }
}

/// The weekly message on the Wednesday practical sessions: on the Wednesday
/// after `today`, group 1 starts with maths in odd ISO weeks and with physics
/// in even ones, group 2 the other way round.
pub open spec fn tp_text(today: int) -> Seq<char> {
    let wed = next_occurrence(today, Weekday::Wednesday);
    let cal = calendar_date_of(wed);
    let odd = iso_week_of(wed) % 2 == 1;
    "Mercredi prochain ("@ + decimal_text(cal.2 as nat) + " "@ + month_short_name(cal.1)
        + ") le group 1 commence par "@ + (if odd {
        "td maths"@
    } else {
        "tp physique"@
    }) + " et le group 2 par "@ + (if odd {
        "tp physique"@
    } else {
        "td maths"@
    })
}

/// One dataset, resolved: its groups and the groups flagged as ghosts.
#[derive(Debug)]
pub struct GuildData {
    pub guild_id: u64,
    pub groups: Vec<Group>,
    pub ghosts: Vec<GroupId>,
}

impl GuildData {
    /// The dataset given by its four tables, with an instructor registry of
    /// its own.
    pub fn new(
        guild_id: u64,
        catalog_text: &str,
        weeks_text: &str,
        grid_text: &str,
        ghosts_text: &str,
    ) -> (r: Result<GuildData, ParseError>)
        ensures
            resolved_dataset(catalog_text@, weeks_text@, grid_text@) matches Ok(gs) ==> (
            parsed_ghosts(lines_of(ghosts_text@)) matches Ok(hs) ==> r matches Ok(d) && d.guild_id
                == guild_id && d.groups@.len() == gs.len() && (forall|g: int|
                0 <= g < gs.len() ==> group_matches(#[trigger] d.groups@[g], guild_id, g, gs[g]))
                && d.ghosts@.map_values(|x: usize| x as int) == hs),
            resolved_dataset(catalog_text@, weeks_text@, grid_text@) matches Ok(_) ==> (
            parsed_ghosts(lines_of(ghosts_text@)) matches Err(e) ==> r == Err::<GuildData, ParseError>(
                e,
            )),
            resolved_dataset(catalog_text@, weeks_text@, grid_text@) matches Err(e) ==> r == Err::<
                GuildData,
                ParseError,
            >(e),
    {
        let mut profs = ProfRegistry::new();
        let groups = match read_groups_data(guild_id, catalog_text, weeks_text, grid_text, &mut profs) {
            Ok(g) => g,
            Err(e) => return Err(e),
        };
        let ghosts = match read_ghost_groups(ghosts_text) {
            Ok(g) => g,
            Err(e) => return Err(e),
        };
        Ok(GuildData { guild_id, groups, ghosts })
    }

    /// The date of weekday `jour` in week `week` (1-based) of the anchor table.
    pub fn get_date(weeks: &[Date], week: usize, jour: Jour) -> (r: Date)
        requires
            1 <= week <= weeks@.len(),
        ensures
            r@ == projected_day(date_views(weeks@), week as int, jour.0),
    {
        project(weeks, week, jour.inner())
    }

    /// The first group numbered `group_id`.
    pub fn get_group(&self, group_id: GroupId) -> (r: Option<&Group>)
        ensures
            r matches Some(g) ==> first_group(self.groups@, group_id) == Some(*g),
            r is None ==> first_group(self.groups@, group_id) is None,
    {
        let mut i: usize = 0;
        assert(self.groups@.subrange(0, 0) =~= Seq::<Group>::empty());
        while i < self.groups.len()
            invariant
                i <= self.groups@.len(),
                first_group(self.groups@.subrange(0, i as int), group_id) is None,
            decreases self.groups@.len() - i,
        {
            assert(self.groups@.subrange(0, i + 1).drop_last() =~= self.groups@.subrange(0, i as int));
            if self.groups[i].id == group_id {
                proof {
                    lemma_first_group_prefix(self.groups@, group_id, i + 1);
                }
                return Some(&self.groups[i]);
            }
            i = i + 1;
        }
        assert(self.groups@.subrange(0, self.groups@.len() as int) =~= self.groups@);
        None
    }

    /// The summary of every group's next two colles after `now` (seconds since
    /// 1970-01-01T00:00:00Z), ghost groups marked.
    pub fn prochaines_colles_msg(&self, now: i64) -> (r: String)
        ensures
            r@ == "# Prochaines colles: "@ + groups_text(self.groups@, self.ghosts@, now as int),
    {
        let mut s = "# Prochaines colles: ".to_owned();
        let ghost head = s@;
        let mut i: usize = 0;
        assert(self.groups@.subrange(0, 0) =~= Seq::<Group>::empty());
        while i < self.groups.len()
            invariant
                i <= self.groups@.len(),
                head == "# Prochaines colles: "@,
                s@ == head + groups_text(self.groups@.subrange(0, i as int), self.ghosts@, now as int),
            decreases self.groups@.len() - i,
        {
            self.push_group_block(&mut s, &self.groups[i], now);
            assert(self.groups@.subrange(0, i + 1).drop_last() =~= self.groups@.subrange(0, i as int));
            assert(s@ =~= head + groups_text(self.groups@.subrange(0, i + 1), self.ghosts@, now as int));
            i = i + 1;
        }
        assert(self.groups@.subrange(0, self.groups@.len() as int) =~= self.groups@);
        s
    }

    fn push_group_block(&self, s: &mut String, g: &Group, now: i64)
        ensures
            final(s)@ == old(s)@ + group_block(*g, self.ghosts@, now as int),
    {
        s.append("\n### Groupe ");
        push_decimal(s, g.id as u64);
        if self.is_ghost(g.id) {
            s.append(" (fantôme 👻)");
        }
        proof {
            reveal_strlit("");
        }
        s.append(" ");
        let next = g.next_instances(now, 2);
        let ghost nv = next@.map_values(|c: &Colle| c@);
        let ghost mid = s@;
        let mut k: usize = 0;
        assert(nv.subrange(0, 0) =~= Seq::<ColleView>::empty());
        while k < next.len()
            invariant
                k <= next@.len(),
                nv == next@.map_values(|c: &Colle| c@),
                s@ == mid + colle_lines(nv.subrange(0, k as int)),
            decreases next@.len() - k,
        {
            assert(nv.subrange(0, k + 1).drop_last() =~= nv.subrange(0, k as int));
            s.append("\n- ");
            s.append(next[k].format(ColleStringFormat::Implicit).as_str());
            k = k + 1;
        }
        assert(nv.subrange(0, next@.len() as int) =~= nv);
        assert(s@ =~= old(s)@ + group_block(*g, self.ghosts@, now as int));
    }

    /// The weekly message on the next Wednesday's practical sessions.
    pub fn semaine_tp_msg(&self, today: Date) -> (r: String)
        requires
            today@ + 7 <= MAX_JULIAN_DAY,
        ensures
            r@ == tp_text(today@),
    {
        let wed = today.next_occurrence(Weekday::Wednesday);
        let (_, month, day) = wed.to_calendar_date();
        let odd = wed.iso_week() % 2 == 1;
        let mut s = "Mercredi prochain (".to_owned();
        push_decimal(&mut s, day as u64);
        s.append(" ");
        s.append(month_to_short_fr(month).as_str());
        s.append(") le group 1 commence par ");
        s.append(if odd { "td maths" } else { "tp physique" });
        s.append(" et le group 2 par ");
        s.append(if odd { "tp physique" } else { "td maths" });
        s
    }

    /// Whether `group_id` is flagged as a ghost group.
    pub fn is_ghost(&self, group_id: GroupId) -> (r: bool)
        ensures
            r == self.ghosts@.contains(group_id),
    {
        let mut i: usize = 0;
        while i < self.ghosts.len()
            invariant
                i <= self.ghosts@.len(),
                forall|k: int| 0 <= k < i ==> self.ghosts@[k] != group_id,
            decreases self.ghosts@.len() - i,
        {
            if self.ghosts[i] == group_id {
                return true;
            }
            i = i + 1;
        }
        false
    }
}

} // verus!
