//! Result frames: the rows path, which decodes column metadata and rows, and the
//! non-row path, which only checks the result kind.

use vstd::prelude::*;

use crate::errors::{truncated, unexpected_eof, MyError, ProtocolError, Unsupported};
use crate::frame::{fails_as, spec_header, FromWire, Header, HeaderView, HEADER_LEN};
use crate::types::{spec_type, CQLType, TypeView};
use crate::values::FromCQL;
use crate::wire::{
    decode_string, read_bytes_at, spec_i32, spec_string, take_i32, view_parsed,
};

verus! {

#[derive(Debug, Clone, Copy, PartialEq, Eq, Structural)]
pub enum ResultKind {
    Void,
    Rows,
    SetKeyspace,
    Prepared,
    SchemaChange,
}

impl View for ResultKind {
    type V = ResultKind;

    open spec fn view(&self) -> ResultKind {
        *self
    }
}

impl ResultKind {
    /// The wire tag of the kind, 1 to 5.
    pub open spec fn spec_tag(self) -> i32 {
        match self {
            ResultKind::Void => 1,
            ResultKind::Rows => 2,
            ResultKind::SetKeyspace => 3,
            ResultKind::Prepared => 4,
            ResultKind::SchemaChange => 5,
        }
    }

    pub fn tag(&self) -> (r: i32)
        ensures
            r == self.spec_tag(),
    {
        match self {
            ResultKind::Void => 1,
            ResultKind::Rows => 2,
            ResultKind::SetKeyspace => 3,
            ResultKind::Prepared => 4,
            ResultKind::SchemaChange => 5,
        }
    }

    pub fn from_tag(tag: i32) -> (r: Option<ResultKind>)
        ensures
            r == result_kind_of(tag),
    {
        match tag {
            1 => Some(ResultKind::Void),
            2 => Some(ResultKind::Rows),
            3 => Some(ResultKind::SetKeyspace),
            4 => Some(ResultKind::Prepared),
            5 => Some(ResultKind::SchemaChange),
            _ => None,
        }
    }
}

pub open spec fn result_kind_of(tag: i32) -> Option<ResultKind> {
    match tag {
        1 => Some(ResultKind::Void),
        2 => Some(ResultKind::Rows),
        3 => Some(ResultKind::SetKeyspace),
        4 => Some(ResultKind::Prepared),
        5 => Some(ResultKind::SchemaChange),
        _ => None,
    }
}

/// The result kind at offset `at`: a big-endian `i32` tag.
pub open spec fn spec_result_kind(s: Seq<u8>, at: int) -> Result<(ResultKind, int), MyError> {
    match spec_i32(s, at) {
        Err(e) => Err(e),
        Ok((tag, next)) => match result_kind_of(tag) {
            Some(kind) => Ok((kind, next)),
            None => Err(MyError::Protocol(ProtocolError::UnknownResultKind(tag))),
        },
    }
}

fn decode_result_kind(buf: &[u8], pos: usize) -> (r: Result<(ResultKind, usize), MyError>)
    requires
        pos <= buf@.len(),
    ensures
        view_parsed(r) == spec_result_kind(buf@, pos as int),
{
    let (tag, next) = take_i32(buf, pos)?;
    match ResultKind::from_tag(tag) {
        Some(kind) => Ok((kind, next)),
        None => Err(MyError::Protocol(ProtocolError::UnknownResultKind(tag))),
    }
}

#[derive(Debug, Clone, Copy, PartialEq, Eq, Structural)]
pub struct ResultFlags {
    /// One table spec, given once, holds for every column.
    pub global_table_spec: bool,
    /// The server has more rows than this result holds.
    pub has_more_pages: bool,
    /// The result carries no column metadata.
    pub no_metadata: bool,
}

/// The flags that the bit mask `x` sets: bits 0, 1 and 2.
pub open spec fn result_flags_of(x: i32) -> ResultFlags {
    ResultFlags {
        global_table_spec: (x & 0x01) != 0,
        has_more_pages: (x & 0x02) != 0,
        no_metadata: (x & 0x04) != 0,
    }
}

impl ResultFlags {
    pub fn from_mask(x: i32) -> (r: ResultFlags)
        ensures
            r == result_flags_of(x),
    {
        ResultFlags {
            global_table_spec: (x & 0x01) != 0,
            has_more_pages: (x & 0x02) != 0,
            no_metadata: (x & 0x04) != 0,
        }
    }
}

/// The keyspace and table that columns come from.
#[derive(Debug, Clone, PartialEq, Eq)]
pub struct TableSpec {
    pub keyspace: String,
    pub table: String,
}

impl View for TableSpec {
    type V = (Seq<char>, Seq<char>);

    open spec fn view(&self) -> (Seq<char>, Seq<char>) {
        (self.keyspace@, self.table@)
    }
}

/// A table spec at offset `at`: the keyspace, then the table, as strings.
pub open spec fn spec_table_spec(s: Seq<u8>, at: int) -> Result<((Seq<char>, Seq<char>), int), MyError> {
    match spec_string(s, at) {
        Err(e) => Err(e),
        Ok((keyspace, mid)) => match spec_string(s, mid) {
            Err(e) => Err(e),
            Ok((table, end)) => Ok(((keyspace, table), end)),
        },
    }
}

pub open spec fn table_spec_view(t: Option<TableSpec>) -> Option<(Seq<char>, Seq<char>)> {
    match t {
        Some(t) => Some(t@),
        None => None,
    }
}

impl TableSpec {
    pub fn decode(buf: &[u8], pos: usize) -> (r: Result<(TableSpec, usize), MyError>)
        requires
            pos <= buf@.len(),
        ensures
            view_parsed(r) == spec_table_spec(buf@, pos as int),
    {
        let (keyspace, mid) = decode_string(buf, pos)?;
        let (table, end) = decode_string(buf, mid)?;
        Ok((TableSpec { keyspace, table }, end))
    }

    /// A copy with the same keyspace and table.
    pub fn duplicate(&self) -> (r: TableSpec)
        ensures
            r@ == self@,
    {
        TableSpec { keyspace: self.keyspace.clone(), table: self.table.clone() }
    }
}

/// A column of a rows result: where it comes from, its name and its type.
#[derive(Debug, PartialEq, Eq)]
pub struct ColumnSpec {
    pub table_spec: TableSpec,
    pub name: String,
    pub datatype: CQLType,
}

pub struct ColumnView {
    pub table_spec: (Seq<char>, Seq<char>),
    pub name: Seq<char>,
    pub datatype: TypeView,
}

impl View for ColumnSpec {
    type V = ColumnView;

    open spec fn view(&self) -> ColumnView {
        ColumnView { table_spec: self.table_spec@, name: self.name@, datatype: self.datatype@ }
    }
}

/// A column spec at offset `at`: its own table spec unless `global` holds one, then
/// its name and its type descriptor.
pub open spec fn spec_column(s: Seq<u8>, at: int, global: Option<(Seq<char>, Seq<char>)>) -> Result<
    (ColumnView, int),
    MyError,
> {
    let table_spec = match global {
        Some(t) => Ok((t, at)),
        None => spec_table_spec(s, at),
    };
    match table_spec {
        Err(e) => Err(e),
        Ok((t, a)) => match spec_string(s, a) {
            Err(e) => Err(e),
            Ok((name, b)) => match spec_type(s, b) {
                Err(e) => Err(e),
                Ok((datatype, end)) => Ok((ColumnView { table_spec: t, name, datatype }, end)),
            },
        },
    }
}

/// The first `n` column specs from offset `at`, one after the other.
pub open spec fn spec_columns(
    s: Seq<u8>,
    at: int,
    n: nat,
    global: Option<(Seq<char>, Seq<char>)>,
) -> Result<(Seq<ColumnView>, int), MyError>
    decreases n,
{
    if n == 0 {
        Ok((seq![], at))
    } else {
        match spec_columns(s, at, (n - 1) as nat, global) {
            Err(e) => Err(e),
            Ok((columns, a)) => match spec_column(s, a, global) {
                Err(e) => Err(e),
                Ok((c, end)) => Ok((columns.push(c), end)),
            },
        }
    }
}

/// A column value at offset `at`: a big-endian `i32` length, then that many bytes;
/// a negative length stands for NULL and no bytes follow it.
pub open spec fn spec_cell(s: Seq<u8>, at: int) -> Result<(Option<Seq<u8>>, int), MyError> {
    match spec_i32(s, at) {
        Err(e) => Err(e),
        Ok((n, a)) => if n < 0 {
            Ok((None, a))
        } else if a + n > s.len() {
            Err(truncated())
        } else {
            Ok((Some(s.subrange(a, a + n)), a + n))
        },
    }
}

/// The values of the first `n` of `columns` from offset `at`, each with its column's name.
pub open spec fn spec_row(s: Seq<u8>, at: int, columns: Seq<ColumnView>, n: nat) -> Result<
    (Seq<(Seq<char>, Option<Seq<u8>>)>, int),
    MyError,
>
    decreases n,
{
    if n == 0 {
        Ok((seq![], at))
    } else {
        match spec_row(s, at, columns, (n - 1) as nat) {
            Err(e) => Err(e),
            Ok((cells, a)) => match spec_cell(s, a) {
                Err(e) => Err(e),
                Ok((v, end)) => Ok((cells.push((columns[n - 1].name, v)), end)),
            },
        }
    }
}

/// The first `n` rows from offset `at`, each with a value for every one of `columns`.
pub open spec fn spec_rows(s: Seq<u8>, at: int, columns: Seq<ColumnView>, n: nat) -> Result<
    (Seq<Seq<(Seq<char>, Option<Seq<u8>>)>>, int),
    MyError,
>
    decreases n,
{
    if n == 0 {
        Ok((seq![], at))
    } else {
        match spec_rows(s, at, columns, (n - 1) as nat) {
            Err(e) => Err(e),
            Ok((rows, a)) => match spec_row(s, a, columns, columns.len()) {
                Err(e) => Err(e),
                Ok((row, end)) => Ok((rows.push(row), end)),
            },
        }
    }
}

/// What a rows body holds.
pub struct RowsView {
    pub flags: ResultFlags,
    pub table_spec: Option<(Seq<char>, Seq<char>)>,
    pub columns: Seq<ColumnView>,
    pub rows: Seq<Seq<(Seq<char>, Option<Seq<u8>>)>>,
}

/// The metadata of a rows body that starts with flags at offset `at`: flags, column
/// count, the global table spec if the flags call for it, then the column specs.
pub open spec fn spec_metadata(b: Seq<u8>, at: int) -> Result<
    (ResultFlags, Option<(Seq<char>, Seq<char>)>, Seq<ColumnView>, int),
    MyError,
> {
    match spec_i32(b, at) {
        Err(e) => Err(e),
        Ok((mask, a1)) => {
            let flags = result_flags_of(mask);
            if flags.no_metadata {
                Err(MyError::Unsupported(Unsupported::NoMetadata))
            } else {
                match spec_i32(b, a1) {
                    Err(e) => Err(e),
                    Ok((count, a2)) => if count < 0 {
                        Err(MyError::Protocol(ProtocolError::NegativeCount(count)))
                    } else {
                        let global = if flags.global_table_spec {
                            match spec_table_spec(b, a2) {
                                Err(e) => Err(e),
                                Ok((t, a)) => Ok((Some(t), a)),
                            }
                        } else {
                            Ok((None, a2))
                        };
                        match global {
                            Err(e) => Err(e),
                            Ok((g, a3)) => match spec_columns(b, a3, count as nat, g) {
                                Err(e) => Err(e),
                                Ok((columns, a4)) => Ok((flags, g, columns, a4)),
                            },
                        }
                    },
                }
            }
        },
    }
}

/// A rows body: the kind Rows, the metadata, a row count, then the rows, which must
/// end exactly where the body does.
pub open spec fn spec_rows_body(b: Seq<u8>) -> Result<RowsView, MyError> {
    match spec_result_kind(b, 0) {
        Err(e) => Err(e),
        Ok((kind, a0)) => if kind != ResultKind::Rows {
            Err(MyError::Unsupported(Unsupported::ResultKind(kind.spec_tag())))
        } else {
            match spec_metadata(b, a0) {
                Err(e) => Err(e),
                Ok((flags, table_spec, columns, a1)) => match spec_i32(b, a1) {
                    Err(e) => Err(e),
                    Ok((count, a2)) => if count < 0 {
                        Err(MyError::Protocol(ProtocolError::NegativeCount(count)))
                    } else {
                        match spec_rows(b, a2, columns, count as nat) {
                            Err(e) => Err(e),
                            Ok((rows, end)) => if end != b.len() {
                                Err(MyError::Protocol(ProtocolError::TrailingBytes))
                            } else {
                                Ok(RowsView { flags, table_spec, columns, rows })
                            },
                        }
                    },
                },
            }
        },
    }
}

/// With a global table spec, every column spec decoded after it carries that one
/// table spec, and no column reads table spec bytes of its own.
pub proof fn lemma_global_table_spec_shared(
    s: Seq<u8>,
    at: int,
    n: nat,
    global: (Seq<char>, Seq<char>),
)
    requires
        spec_columns(s, at, n, Some(global)) is Ok,
    ensures
        spec_columns(s, at, n, Some(global)) matches Ok((columns, _)) && columns.len() == n
            && forall|i: int| 0 <= i < n ==> (#[trigger] columns[i]).table_spec == global,
    decreases n,
{
    if n > 0 {
        lemma_global_table_spec_shared(s, at, (n - 1) as nat, global);
    }
}

proof fn lemma_columns_fail(
    s: Seq<u8>,
    at: int,
    i: nat,
    n: nat,
    global: Option<(Seq<char>, Seq<char>)>,
    columns: Seq<ColumnView>,
    a: int,
    e: MyError,
)
    requires
        i < n,
        spec_columns(s, at, i, global) == Ok::<(Seq<ColumnView>, int), MyError>((columns, a)),
        spec_column(s, a, global) == Err::<(ColumnView, int), MyError>(e),
    ensures
        spec_columns(s, at, n, global) == Err::<(Seq<ColumnView>, int), MyError>(e),
    decreases n,
{
    if n > i + 1 {
        lemma_columns_fail(s, at, i, (n - 1) as nat, global, columns, a, e);
    }
}

proof fn lemma_row_fail(
    s: Seq<u8>,
    at: int,
    columns: Seq<ColumnView>,
    i: nat,
    n: nat,
    cells: Seq<(Seq<char>, Option<Seq<u8>>)>,
    a: int,
    e: MyError,
)
    requires
        i < n,
        spec_row(s, at, columns, i) == Ok::<(Seq<(Seq<char>, Option<Seq<u8>>)>, int), MyError>(
            (cells, a),
        ),
        spec_cell(s, a) == Err::<(Option<Seq<u8>>, int), MyError>(e),
    ensures
        spec_row(s, at, columns, n) == Err::<(Seq<(Seq<char>, Option<Seq<u8>>)>, int), MyError>(e),
    decreases n,
{
    if n > i + 1 {
        lemma_row_fail(s, at, columns, i, (n - 1) as nat, cells, a, e);
    }
}

proof fn lemma_rows_fail(
    s: Seq<u8>,
    at: int,
    columns: Seq<ColumnView>,
    i: nat,
    n: nat,
    rows: Seq<Seq<(Seq<char>, Option<Seq<u8>>)>>,
    a: int,
    e: MyError,
)
    requires
        i < n,
        spec_rows(s, at, columns, i) == Ok::<
            (Seq<Seq<(Seq<char>, Option<Seq<u8>>)>>, int),
            MyError,
        >((rows, a)),
        spec_row(s, a, columns, columns.len()) == Err::<
            (Seq<(Seq<char>, Option<Seq<u8>>)>, int),
            MyError,
        >(e),
    ensures
        spec_rows(s, at, columns, n) == Err::<
            (Seq<Seq<(Seq<char>, Option<Seq<u8>>)>>, int),
            MyError,
        >(e),
    decreases n,
{
    if n > i + 1 {
        lemma_rows_fail(s, at, columns, i, (n - 1) as nat, rows, a, e);
    }
}

pub open spec fn columns_view(columns: Seq<ColumnSpec>) -> Seq<ColumnView> {
    columns.map_values(|c: ColumnSpec| c@)
}

pub open spec fn bytes_view(v: Option<Vec<u8>>) -> Option<Seq<u8>> {
    match v {
        Some(b) => Some(b@),
        None => None,
    }
}

pub open spec fn cell_view(c: (String, Option<Vec<u8>>)) -> (Seq<char>, Option<Seq<u8>>) {
    (c.0@, bytes_view(c.1))
}

/// One row: for each column, in column order, its name and its value, or `None`
/// for NULL.
#[derive(Debug, Clone, PartialEq, Eq)]
pub struct Row {
    pub columns: Vec<(String, Option<Vec<u8>>)>,
}

impl View for Row {
    type V = Seq<(Seq<char>, Option<Seq<u8>>)>;

    open spec fn view(&self) -> Seq<(Seq<char>, Option<Seq<u8>>)> {
        self.columns@.map_values(|c: (String, Option<Vec<u8>>)| cell_view(c))
    }
}

/// The value of the last of `cells` named `name`: `None` when none is, else that
/// column's value, which is `None` for NULL.
pub open spec fn cell_lookup(cells: Seq<(Seq<char>, Option<Seq<u8>>)>, name: Seq<char>) -> Option<
    Option<Seq<u8>>,
>
    decreases cells.len(),
{
    if cells.len() == 0 {
        None
    } else if cells.last().0 == name {
        Some(cells.last().1)
    } else {
        cell_lookup(cells.drop_last(), name)
    }
}

impl Row {
    /// The value of the column `col` read as a `T`: `Ok(None)` for NULL or an empty
    /// value, an error when no column has that name or its bytes hold no `T`.
    pub fn get<T: FromCQL>(&self, col: &str) -> (r: Result<Option<T>, MyError>)
        ensures
            match cell_lookup(self@, col@) {
                None => r matches Err(MyError::UnknownColumn),
                Some(None) => r matches Ok(None),
                Some(Some(b)) => if b.len() == 0 {
                    r matches Ok(None)
                } else if T::cql_valid(b) {
                    r matches Ok(Some(v)) && T::cql_value(b, v)
                } else {
                    r matches Err(e) && e == MyError::Protocol(ProtocolError::Malformed)
                },
            },
    {
        let key = String::from_str(col);
        let mut found: Option<usize> = None;
        let mut i: usize = 0;
        while i < self.columns.len()
            invariant
                i <= self.columns@.len(),
                key@ == col@,
                match found {
                    None => cell_lookup(self@.subrange(0, i as int), col@) is None,
                    Some(j) => j < i && cell_lookup(self@.subrange(0, i as int), col@) == Some(
                        self@[j as int].1,
                    ),
                },
            decreases self.columns@.len() - i,
        {
            assert(self@.subrange(0, i + 1).drop_last() =~= self@.subrange(0, i as int));
            if self.columns[i].0 == key {
                found = Some(i);
            }
            i = i + 1;
        }
        assert(self@.subrange(0, i as int) =~= self@);
        match found {
            None => Err(MyError::UnknownColumn),
            Some(j) => match &self.columns[j].1 {
                None => Ok(None),
                Some(bytes) => {
                    if bytes.len() == 0 {
                        Ok(None)
                    } else {
                        match T::parse(bytes.as_slice()) {
                            Ok(v) => Ok(Some(v)),
                            Err(e) => Err(e),
                        }
                    }
                },
            },
        }
    }
}

pub open spec fn rows_view(rows: Seq<Row>) -> Seq<Seq<(Seq<char>, Option<Seq<u8>>)>> {
    rows.map_values(|r: Row| r@)
}

fn decode_cell(buf: &[u8], pos: usize) -> (r: Result<(Option<Vec<u8>>, usize), MyError>)
    requires
        pos <= buf@.len(),
    ensures
        match r {
            Ok((v, end)) => spec_cell(buf@, pos as int) == Ok::<(Option<Seq<u8>>, int), MyError>(
                (bytes_view(v), end as int),
            ),
            Err(e) => spec_cell(buf@, pos as int) == Err::<(Option<Seq<u8>>, int), MyError>(e),
        },
{
    let (n, start) = take_i32(buf, pos)?;
    if n < 0 {
        return Ok((None, start));
    }
    if n as usize > buf.len() - start {
        return Err(MyError::Protocol(ProtocolError::Truncated));
    }
    match read_bytes_at(buf, start, n as usize) {
        Some(bytes) => Ok((Some(bytes), start + n as usize)),
        None => Err(MyError::Protocol(ProtocolError::Truncated)),
    }
}

#[verifier::loop_isolation(false)]
fn decode_row(buf: &[u8], pos: usize, columns: &Vec<ColumnSpec>) -> (r: Result<(Row, usize), MyError>)
    requires
        pos <= buf@.len(),
    ensures
        view_parsed(r) == spec_row(buf@, pos as int, columns_view(columns@), columns@.len()),
        r matches Ok((_, end)) ==> end <= buf@.len(),
{
    let ghost cv = columns_view(columns@);
    let mut cells: Vec<(String, Option<Vec<u8>>)> = Vec::new();
    let mut at = pos;
    let mut j: usize = 0;
    assert(cells@.map_values(|c: (String, Option<Vec<u8>>)| cell_view(c)) =~= seq![]);
    while j < columns.len()
        invariant
            j <= columns@.len(),
            at <= buf@.len(),
            cv == columns_view(columns@),
            spec_row(buf@, pos as int, cv, j as nat) == Ok::<
                (Seq<(Seq<char>, Option<Seq<u8>>)>, int),
                MyError,
            >((cells@.map_values(|c: (String, Option<Vec<u8>>)| cell_view(c)), at as int)),
        decreases columns@.len() - j,
    {
        match decode_cell(buf, at) {
            Err(e) => {
                proof {
                    lemma_row_fail(
                        buf@,
                        pos as int,
                        cv,
                        j as nat,
                        columns@.len(),
                        cells@.map_values(|c: (String, Option<Vec<u8>>)| cell_view(c)),
                        at as int,
                        e,
                    );
                }
                return Err(e);
            },
            Ok((value, next)) => {
                let ghost old_cells = cells@;
                let name = columns[j].name.clone();
                cells.push((name, value));
                proof {
                    assert(cells@.map_values(|c: (String, Option<Vec<u8>>)| cell_view(c))
                        =~= old_cells.map_values(|c: (String, Option<Vec<u8>>)| cell_view(c)).push(
                        (cv[j as int].name, bytes_view(value)),
                    ));
                }
                at = next;
                j = j + 1;
            },
        }
    }
    Ok((Row { columns: cells }, at))
}

/// The column spec at `pos`, sharing `global` when it holds a table spec.
fn decode_column(buf: &[u8], pos: usize, global: &Option<TableSpec>) -> (r: Result<
    (ColumnSpec, usize),
    MyError,
>)
    requires
        pos <= buf@.len(),
    ensures
        view_parsed(r) == spec_column(buf@, pos as int, table_spec_view(*global)),
        r matches Ok((_, end)) ==> end <= buf@.len(),
{
    let (table_spec, a) = match global {
        Some(t) => (t.duplicate(), pos),
        None => TableSpec::decode(buf, pos)?,
    };
    let (name, b) = decode_string(buf, a)?;
    let (datatype, end) = CQLType::decode(buf, b)?;
    Ok((ColumnSpec { table_spec, name, datatype }, end))
}

/// The metadata of a rows body, from its flags at `pos` to the end of its column specs.
#[verifier::loop_isolation(false)]
fn decode_metadata(buf: &[u8], pos: usize) -> (r: Result<
    (ResultFlags, Option<TableSpec>, Vec<ColumnSpec>, usize),
    MyError,
>)
    requires
        pos <= buf@.len(),
    ensures
        match spec_metadata(buf@, pos as int) {
            Ok((flags, global, columns, end)) => r matches Ok((f, g, cs, e)) && f == flags
                && table_spec_view(g) == global && columns_view(cs@) == columns && e == end
                && e <= buf@.len(),
            Err(err) => r matches Err(x) && x == err,
        },
{
    let (mask, a1) = take_i32(buf, pos)?;
    let flags = ResultFlags::from_mask(mask);
    if flags.no_metadata {
        return Err(MyError::Unsupported(Unsupported::NoMetadata));
    }
    let (count, a2) = take_i32(buf, a1)?;
    if count < 0 {
        return Err(MyError::Protocol(ProtocolError::NegativeCount(count)));
    }
    let (global, a3) = if flags.global_table_spec {
        let (t, a) = TableSpec::decode(buf, a2)?;
        (Some(t), a)
    } else {
        (None, a2)
    };
    let ghost g = table_spec_view(global);
    let n = count as usize;
    let mut columns: Vec<ColumnSpec> = Vec::new();
    let mut at = a3;
    let mut i: usize = 0;
    assert(columns_view(columns@) =~= seq![]);
    while i < n
        invariant
            i <= n,
            n == count,
            at <= buf@.len(),
            g == table_spec_view(global),
            spec_columns(buf@, a3 as int, i as nat, g) == Ok::<(Seq<ColumnView>, int), MyError>(
                (columns_view(columns@), at as int),
            ),
        decreases n - i,
    {
        match decode_column(buf, at, &global) {
            Err(e) => {
                proof {
                    lemma_columns_fail(
                        buf@,
                        a3 as int,
                        i as nat,
                        n as nat,
                        g,
                        columns_view(columns@),
                        at as int,
                        e,
                    );
                }
                return Err(e);
            },
            Ok((c, next)) => {
                let ghost old_columns = columns@;
                columns.push(c);
                proof {
                    assert(columns_view(columns@) =~= columns_view(old_columns).push(c@));
                }
                at = next;
                i = i + 1;
            },
        }
    }
    Ok((flags, global, columns, at))
}

/// A decoded rows result.
#[derive(Debug)]
pub struct QueryResult {
    pub header: Header,
    pub kind: ResultKind,
    pub flags: ResultFlags,
    /// The table spec that every column shares, when the flags call for one.
    pub table_spec: Option<TableSpec>,
    pub columns: Vec<ColumnSpec>,
    pub rows: Vec<Row>,
}

/// Whether `r` is what decoding the rows body `body` of a frame with header `h` gives.
pub open spec fn rows_result_matches(h: Header, body: Seq<u8>, r: Result<QueryResult, MyError>) -> bool {
    match spec_rows_body(body) {
        Ok(v) => r matches Ok(q) && q.header == h && q.kind == ResultKind::Rows && q.flags
            == v.flags && table_spec_view(q.table_spec) == v.table_spec && columns_view(
            q.columns@,
        ) == v.columns && rows_view(q.rows@) == v.rows,
        Err(e) => r matches Err(f) && f == e,
    }
}

impl QueryResult {
    /// Decodes the body of a result frame whose header is `header`.
    #[verifier::loop_isolation(false)]
    pub fn decode_body(header: Header, body: &[u8]) -> (r: Result<QueryResult, MyError>)
        ensures
            rows_result_matches(header, body@, r),
    {
        let (kind, a0) = decode_result_kind(body, 0)?;
        match kind {
            ResultKind::Rows => {},
            _ => return Err(MyError::Unsupported(Unsupported::ResultKind(kind.tag()))),
        }
        let (flags, table_spec, columns, a1) = decode_metadata(body, a0)?;
        let (count, a2) = take_i32(body, a1)?;
        if count < 0 {
            return Err(MyError::Protocol(ProtocolError::NegativeCount(count)));
        }
        let ghost cv = columns_view(columns@);
        let n = count as usize;
        let mut rows: Vec<Row> = Vec::new();
        let mut at = a2;
        let mut i: usize = 0;
        assert(rows_view(rows@) =~= seq![]);
        while i < n
            invariant
                i <= n,
                n == count,
                at <= body@.len(),
                cv == columns_view(columns@),
                spec_rows(body@, a2 as int, cv, i as nat) == Ok::<
                    (Seq<Seq<(Seq<char>, Option<Seq<u8>>)>>, int),
                    MyError,
                >((rows_view(rows@), at as int)),
            decreases n - i,
        {
            match decode_row(body, at, &columns) {
                Err(e) => {
                    proof {
                        lemma_rows_fail(
                            body@,
                            a2 as int,
                            cv,
                            i as nat,
                            n as nat,
                            rows_view(rows@),
                            at as int,
                            e,
                        );
                    }
                    return Err(e);
                },
                Ok((row, next)) => {
                    let ghost old_rows = rows@;
                    rows.push(row);
                    proof {
                        assert(rows_view(rows@) =~= rows_view(old_rows).push(row@));
                    }
                    at = next;
                    i = i + 1;
                },
            }
        }
        if at != body.len() {
            return Err(MyError::Protocol(ProtocolError::TrailingBytes));
        }
        Ok(QueryResult { header, kind, flags, table_spec, columns, rows })
    }

    /// Whether the server has more rows than this result holds; paging them in is not
    /// supported, so a caller may want to warn.
    pub fn has_more_pages(&self) -> (r: bool)
        ensures
            r == self.flags.has_more_pages,
    {
        self.flags.has_more_pages
    }
}

/// The body that the header `h` of the frame at the start of `bytes` announces.
pub open spec fn frame_body(bytes: Seq<u8>, h: Header) -> Seq<u8> {
    bytes.subrange(HEADER_LEN as int, HEADER_LEN + h.length)
}

impl FromWire for QueryResult {
    open spec fn decodes_to(bytes: Seq<u8>, r: Result<QueryResult, MyError>) -> bool {
        match spec_header(bytes) {
            HeaderView::Decoded(h) => if bytes.len() < HEADER_LEN + h.length {
                r matches Err(MyError::IO(_))
            } else {
                rows_result_matches(h, frame_body(bytes, h), r)
            },
            o => fails_as(o, r),
        }
    }

    fn decode(buffer: &[u8]) -> (r: Result<QueryResult, MyError>) {
        let header = match Header::decode(buffer) {
            Ok(h) => h,
            Err(e) => return Err(e),
        };
        if header.length as usize > buffer.len() - HEADER_LEN {
            return Err(MyError::IO(unexpected_eof()));
        }
        let body = &buffer[HEADER_LEN..HEADER_LEN + header.length as usize];
        QueryResult::decode_body(header, body)
    }
}

/// A result read on the path that expects no rows: the kind Void or SchemaChange.
#[derive(Debug)]
pub struct NonRowResult {
    pub header: Header,
    pub kind: ResultKind,
}

/// Whether `r` is what the non-row path gives for the body `body` of a frame with header `h`.
pub open spec fn non_row_result_matches(h: Header, body: Seq<u8>, r: Result<NonRowResult, MyError>) -> bool {
    match spec_result_kind(body, 0) {
        Err(e) => r matches Err(f) && f == e,
        Ok((kind, _)) => if kind == ResultKind::Void || kind == ResultKind::SchemaChange {
            r matches Ok(n) && n.header == h && n.kind == kind
        } else {
            r matches Err(f) && f == MyError::Unsupported(Unsupported::ResultKind(kind.spec_tag()))
        },
    }
}

impl FromWire for NonRowResult {
    open spec fn decodes_to(bytes: Seq<u8>, r: Result<NonRowResult, MyError>) -> bool {
        match spec_header(bytes) {
            HeaderView::Decoded(h) => if bytes.len() < HEADER_LEN + h.length {
                r matches Err(MyError::IO(_))
            } else {
                non_row_result_matches(h, frame_body(bytes, h), r)
            },
            o => fails_as(o, r),
        }
    }

    fn decode(buffer: &[u8]) -> (r: Result<NonRowResult, MyError>) {
        let header = match Header::decode(buffer) {
            Ok(h) => h,
            Err(e) => return Err(e),
        };
        if header.length as usize > buffer.len() - HEADER_LEN {
            return Err(MyError::IO(unexpected_eof()));
        }
        let body = &buffer[HEADER_LEN..HEADER_LEN + header.length as usize];
        let (kind, _) = decode_result_kind(body, 0)?;
        match kind {
            ResultKind::Void | ResultKind::SchemaChange => Ok(NonRowResult { header, kind }),
            _ => Err(MyError::Unsupported(Unsupported::ResultKind(kind.tag()))),
        }
    }
}

} // verus!
