//! The device model and the parser for the inventory utility's table.
use vstd::prelude::*;
use crate::text::{
    join_spaced, join_spaced_range, lemma_tokens_nonempty, lines, split_lines, split_whitespace,
    tokens, views,
};

verus! {

/// The platform whose utilities are read and driven.
#[derive(Clone, Copy, Debug, PartialEq, Eq, Structural)]
pub enum Platform {
    /// Devices are bare names under `/dev/`; boot entries come from an
    /// entry table.
    Linux,
    /// Devices are opaque identifiers; the boot manager is pointed at a
    /// partition.
    Windows,
}

/// What the inventory utility's device names are prefixed with to form a path.
pub open spec fn path_prefix(platform: Platform) -> Seq<char> {
    match platform {
        Platform::Linux => seq!['/', 'd', 'e', 'v', '/'],
        Platform::Windows => Seq::empty(),
    }
}

pub fn path_prefix_exec(platform: Platform) -> (r: String)
    ensures
        r@ == path_prefix(platform),
{
    match platform {
        Platform::Linux => {
            let r = String::from_str("/dev/");
            proof {
                reveal_strlit("/dev/");
                assert(r@ =~= path_prefix(platform));
            }
            r
        },
        Platform::Windows => {
            let r = String::new();
            assert(r@ =~= path_prefix(platform));
            r
        },
    }
}

/// A storage device that the machine could boot from.
pub struct BootDevice {
    path: String,
    model: String,
    size: String,
}

/// What a `BootDevice` holds.
pub struct DeviceView {
    pub path: Seq<char>,
    pub model: Seq<char>,
    pub size: Seq<char>,
}

impl View for BootDevice {
    type V = DeviceView;

    closed spec fn view(&self) -> DeviceView {
        DeviceView { path: self.path@, model: self.model@, size: self.size@ }
    }
}

pub open spec fn device_views(v: Seq<BootDevice>) -> Seq<DeviceView> {
    v.map_values(|d: BootDevice| d@)
}

pub open spec fn unknown_model() -> Seq<char> {
    seq!['U', 'n', 'k', 'n', 'o', 'w', 'n']
}

/// The model column: the tokens between name and size, joined by spaces, or
/// the placeholder where that is blank.
pub open spec fn model_field(middle: Seq<Seq<char>>) -> Seq<char> {
    let joined = join_spaced(middle);
    if joined.len() == 0 {
        unknown_model()
    } else {
        joined
    }
}

/// The device that one table row describes: the first token is the name, the
/// last the size, those between the model. A row of fewer than three tokens
/// describes none.
pub open spec fn row_device(row: Seq<char>, prefix: Seq<char>) -> Option<DeviceView> {
    let t = tokens(row);
    if t.len() < 3 {
        None
    } else {
        Some(
            DeviceView {
                path: prefix + t[0],
                model: model_field(t.subrange(1, t.len() - 1)),
                size: t.last(),
            },
        )
    }
}

/// The devices that `rows` describe, in order.
pub open spec fn rows_devices(rows: Seq<Seq<char>>, prefix: Seq<char>) -> Seq<DeviceView>
    decreases rows.len(),
{
    if rows.len() == 0 {
        Seq::empty()
    } else {
        let before = rows_devices(rows.drop_last(), prefix);
        match row_device(rows.last(), prefix) {
            Some(d) => before.push(d),
            None => before,
        }
    }
}

/// The devices of an inventory table: every line after the header.
pub open spec fn device_table(text: Seq<char>, prefix: Seq<char>) -> Seq<DeviceView> {
    let ls = lines(text);
    if ls.len() == 0 {
        Seq::empty()
    } else {
        rows_devices(ls.drop_first(), prefix)
    }
}

pub open spec fn display_text(d: DeviceView) -> Seq<char> {
    d.model + seq![' '] + d.size + seq![' ', '('] + d.path + seq![')']
}

impl BootDevice {
    pub fn new(path: String, model: String, size: String) -> (r: BootDevice)
        ensures
            r@ == (DeviceView { path: path@, model: model@, size: size@ }),
    {
        BootDevice { path, model, size }
    }

    pub fn path(&self) -> (r: &str)
        ensures
            r@ == self@.path,
    {
        self.path.as_str()
    }

    pub fn model(&self) -> (r: &str)
        ensures
            r@ == self@.model,
    {
        self.model.as_str()
    }

    pub fn size(&self) -> (r: &str)
        ensures
            r@ == self@.size,
    {
        self.size.as_str()
    }

    /// A copy with the same fields.
    pub fn duplicate(&self) -> (r: BootDevice)
        ensures
            r@ == self@,
    {
        BootDevice { path: self.path.clone(), model: self.model.clone(), size: self.size.clone() }
    }

    /// The device as a menu shows it: `model size (path)`.
    pub fn display(&self) -> (r: String)
        ensures
            r@ == display_text(self@),
    {
        let mut r = self.model.clone();
        r.append(" ");
        r.append(self.size.as_str());
        r.append(" (");
        r.append(self.path.as_str());
        r.append(")");
        proof {
            reveal_strlit(" ");
            reveal_strlit(" (");
            reveal_strlit(")");
            assert(r@ =~= display_text(self@));
        }
        r
    }
}

/// The model column for the tokens `parts[lo..hi]`.
pub fn model_of_parts(parts: &Vec<String>, lo: usize, hi: usize) -> (r: String)
    requires
        lo <= hi <= parts@.len(),
    ensures
        r@ == model_field(views(parts@).subrange(lo as int, hi as int)),
{
    let joined = join_spaced_range(parts, lo, hi);
    if joined.as_str().is_empty() {
        let r = String::from_str("Unknown");
        proof {
            reveal_strlit("Unknown");
            assert(r@ =~= unknown_model());
        }
        r
    } else {
        joined
    }
}

/// Parses one row of the inventory table; `prefix` goes before the name.
pub fn parse_row(row: &str, prefix: &str) -> (r: Option<BootDevice>)
    ensures
        r matches Some(d) ==> row_device(row@, prefix@) == Some(d@),
        r is None ==> row_device(row@, prefix@) is None,
{
    let toks = split_whitespace(row);
    let n = toks.len();
    if n < 3 {
        return None;
    }
    proof {
        assert(views(toks@)[0] == toks@[0]@);
        assert(views(toks@)[n - 1] == toks@[n - 1]@);
    }
    let mut path = String::from_str(prefix);
    path.append(toks[0].as_str());
    let model = model_of_parts(&toks, 1, n - 1);
    let size = toks[n - 1].clone();
    let d = BootDevice { path, model, size };
    proof {
        assert(d@ == row_device(row@, prefix@)->0);
    }
    Some(d)
}

/// The devices that an inventory table lists, in its order. The first line is
/// the header; rows of fewer than three tokens are passed over.
pub fn parse_device_table(platform: Platform, text: &str) -> (r: Vec<BootDevice>)
    ensures
        device_views(r@) == device_table(text@, path_prefix(platform)),
{
    let prefix = path_prefix_exec(platform);
    let ls = split_lines(text);
    let mut out: Vec<BootDevice> = Vec::new();
    if ls.len() == 0 {
        proof {
            assert(device_views(out@) =~= Seq::<DeviceView>::empty());
        }
        return out;
    }
    let ghost rows = views(ls@).drop_first();
    let mut i: usize = 1;
    proof {
        assert(rows.subrange(0, 0) =~= Seq::<Seq<char>>::empty());
        assert(device_views(out@) =~= Seq::<DeviceView>::empty());
    }
    while i < ls.len()
        invariant
            1 <= i <= ls@.len(),
            rows == views(ls@).drop_first(),
            views(ls@) == lines(text@),
            prefix@ == path_prefix(platform),
            device_views(out@) == rows_devices(rows.subrange(0, i - 1), prefix@),
        decreases ls@.len() - i,
    {
        let ghost before = out@;
        proof {
            assert(rows.subrange(0, i as int).drop_last() =~= rows.subrange(0, i - 1));
            assert(rows.subrange(0, i as int).last() == ls@[i as int]@);
        }
        match parse_row(ls[i].as_str(), prefix.as_str()) {
            Some(d) => {
                out.push(d);
                proof {
                    assert(device_views(out@) =~= device_views(before).push(d@));
                }
            },
            None => {},
        }
        i = i + 1;
    }
    proof {
        assert(rows.subrange(0, i - 1) =~= rows);
    }
    out
}

/// A blank model column reads as the placeholder "Unknown".
pub proof fn lemma_blank_model(middle: Seq<Seq<char>>)
    requires
        join_spaced(middle).len() == 0,
    ensures
        model_field(middle) == unknown_model(),
{
}

/// The devices of two runs of rows are those of each, one after the other.
pub proof fn lemma_rows_concat(a: Seq<Seq<char>>, b: Seq<Seq<char>>, prefix: Seq<char>)
    ensures
        rows_devices(a + b, prefix) == rows_devices(a, prefix) + rows_devices(b, prefix),
    decreases b.len(),
{
    if b.len() == 0 {
        assert(a + b =~= a);
        assert(rows_devices(a, prefix) + rows_devices(b, prefix) =~= rows_devices(a, prefix));
    } else {
        lemma_rows_concat(a, b.drop_last(), prefix);
        assert((a + b).drop_last() =~= a + b.drop_last());
        assert((a + b).last() == b.last());
        let ra = rows_devices(a, prefix);
        let rb = rows_devices(b.drop_last(), prefix);
        match row_device(b.last(), prefix) {
            Some(d) => {
                assert((ra + rb).push(d) =~= ra + rb.push(d));
            },
            None => {},
        }
    }
}

/// A row of fewer than three tokens gives no device, and the rows around it
/// give the devices they would give without it.
pub proof fn lemma_short_row_skipped(
    before: Seq<Seq<char>>,
    row: Seq<char>,
    after: Seq<Seq<char>>,
    prefix: Seq<char>,
)
    requires
        tokens(row).len() < 3,
    ensures
        rows_devices(before + seq![row] + after, prefix) == rows_devices(before + after, prefix),
{
    lemma_rows_concat(before + seq![row], after, prefix);
    lemma_rows_concat(before, after, prefix);
    assert(before + seq![row] =~= before.push(row));
    assert((before + seq![row]).drop_last() =~= before);
}

/// Rows of three or more tokens each give one device apiece, in order, each
/// with a non-empty path.
pub proof fn lemma_well_formed_rows(rows: Seq<Seq<char>>, prefix: Seq<char>)
    requires
        forall|i: int| 0 <= i < rows.len() ==> tokens(#[trigger] rows[i]).len() >= 3,
    ensures
        rows_devices(rows, prefix).len() == rows.len(),
        forall|k: int|
            0 <= k < rows.len() ==> Some(#[trigger] rows_devices(rows, prefix)[k]) == row_device(
                rows[k],
                prefix,
            ) && rows_devices(rows, prefix)[k].path.len() > 0,
    decreases rows.len(),
{
    if rows.len() > 0 {
        let init = rows.drop_last();
        assert forall|i: int| 0 <= i < init.len() implies tokens(#[trigger] init[i]).len() >= 3 by {
            assert(init[i] == rows[i]);
        }
        lemma_well_formed_rows(init, prefix);
        let last = rows.last();
        assert(tokens(last).len() >= 3);
        lemma_tokens_nonempty(last);
        let all = rows_devices(rows, prefix);
        assert forall|k: int| 0 <= k < rows.len() implies Some(#[trigger] all[k]) == row_device(
            rows[k],
            prefix,
        ) && all[k].path.len() > 0 by {
            if k < rows.len() - 1 {
                assert(rows[k] == init[k]);
            }
        }
    }
}

/// A header line and rows of three or more tokens each: one device per row,
/// in the table's order, each with a non-empty path.
pub proof fn lemma_well_formed_table(text: Seq<char>, prefix: Seq<char>)
    requires
        lines(text).len() >= 1,
        forall|i: int| 1 <= i < lines(text).len() ==> tokens(#[trigger] lines(text)[i]).len() >= 3,
    ensures
        device_table(text, prefix).len() == lines(text).len() - 1,
        forall|k: int|
            0 <= k < lines(text).len() - 1 ==> Some(#[trigger] device_table(text, prefix)[k])
                == row_device(lines(text)[k + 1], prefix) && device_table(text, prefix)[k].path.len()
                > 0,
{
    let rows = lines(text).drop_first();
    assert forall|i: int| 0 <= i < rows.len() implies tokens(#[trigger] rows[i]).len() >= 3 by {
        assert(rows[i] == lines(text)[i + 1]);
    }
    lemma_well_formed_rows(rows, prefix);
    assert forall|k: int| 0 <= k < lines(text).len() - 1 implies Some(
        #[trigger] device_table(text, prefix)[k],
    ) == row_device(lines(text)[k + 1], prefix) && device_table(text, prefix)[k].path.len() > 0 by {
        assert(rows[k] == lines(text)[k + 1]);
    }
}

} // verus!
