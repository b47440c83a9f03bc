use vstd::prelude::*;

verus! {

/// The DPI at which one logical pixel is one physical pixel.
pub const DEFAULT_DPI: u32 = 96;

/// Integer division rounded towards zero, as Rust divides.
pub open spec fn div_toward_zero(n: int, d: int) -> int {
    if n >= 0 {
        n / d
    } else {
        -((-n) / d)
    }
}

/// A length at 96 DPI converted to `dpi`: `(value * dpi + 48) / 96`, rounded towards
/// zero, before it is cut to 32 bits.
pub open spec fn scaled(value: int, dpi: int) -> int {
    div_toward_zero(value * dpi + 48, 96)
}

/// Converts a length at 96 DPI to the monitor's DPI, rounding halves up for positive
/// lengths; the result is cut to 32 bits as `as i32` does.
pub fn scale_dimension(value: i32, dpi: u32) -> (r: i32)
    ensures
        r == scaled(value as int, dpi as int) as i32,
{
    proof {
        assert(-0x8000_0000 * 0xffff_ffff <= value * dpi <= 0x7fff_ffff * 0xffff_ffff) by (nonlinear_arith)
            requires
                -0x8000_0000 <= value <= 0x7fff_ffff,
                0 <= dpi <= 0xffff_ffff,
        ;
    }
    let n: i64 = value as i64 * dpi as i64 + 48;
    let q: i64 = if n >= 0 {
        n / 96
    } else {
        -((-n) / 96)
    };
    q as i32
}

/// At the default DPI a non-negative length stays as it is.
pub proof fn lemma_default_dpi_keeps_lengths(value: i32)
    requires
        value >= 0,
    ensures
        scaled(value as int, DEFAULT_DPI as int) == value,
        scaled(value as int, DEFAULT_DPI as int) as i32 == value,
{
    assert((value * 96 + 48) / 96 == value);
}

/// A child window's place: its corner and its size, at least 1 by 1.
#[derive(Clone, Copy, Debug, PartialEq, Eq, Structural)]
pub struct Placement {
    pub x: i32,
    pub y: i32,
    pub width: i32,
    pub height: i32,
}

/// The place with its size raised to at least 1 on each axis.
pub open spec fn placed(x: int, y: int, width: int, height: int) -> Placement {
    Placement {
        x: x as i32,
        y: y as i32,
        width: (if width >= 1 { width } else { 1 }) as i32,
        height: (if height >= 1 { height } else { 1 }) as i32,
    }
}

fn place(x: i32, y: i32, width: i32, height: i32) -> (p: Placement)
    ensures
        p == placed(x as int, y as int, width as int, height as int),
{
    Placement {
        x,
        y,
        width: if width >= 1 {
            width
        } else {
            1
        },
        height: if height >= 1 {
            height
        } else {
            1
        },
    }
}

/// The larger of two numbers.
pub open spec fn larger(a: int, b: int) -> int {
    if a >= b {
        a
    } else {
        b
    }
}

/// The places of the diagnostic window's log and its two buttons.
#[derive(Clone, Copy, Debug, PartialEq, Eq, Structural)]
pub struct DiagnosticLayout {
    pub edit: Placement,
    pub copy_button: Placement,
    pub clear_button: Placement,
}

/// The scaled lengths of the diagnostic window stay small enough to add up.
pub open spec fn diagnostic_dpi_fits(dpi: u32) -> bool {
    &&& 2 * scaled(12, dpi as int) + 2 * scaled(126, dpi as int) <= i32::MAX
    &&& 3 * scaled(12, dpi as int) + scaled(30, dpi as int) + scaled(40, dpi as int) <= i32::MAX
}

fn scaled_wide(value: i64, dpi: u32) -> (r: i64)
    requires
        0 <= value <= 1000,
    ensures
        r == scaled(value as int, dpi as int),
{
    proof {
        assert(value * dpi <= 1000 * 0xffff_ffff) by (nonlinear_arith)
            requires
                0 <= value <= 1000,
                0 <= dpi <= 0xffff_ffff,
        ;
    }
    (value * dpi as i64 + 48) / 96
}

/// Whether the diagnostic window can be laid out at this DPI: `diagnostic_dpi_fits`.
pub fn diagnostic_dpi_is_supported(dpi: u32) -> (b: bool)
    ensures
        b == diagnostic_dpi_fits(dpi),
{
    let p = scaled_wide(12, dpi);
    let bw = scaled_wide(126, dpi);
    let bh = scaled_wide(30, dpi);
    let min_edit = scaled_wide(40, dpi);
    2 * p + 2 * bw <= i32::MAX as i64 && 3 * p + bh + min_edit <= i32::MAX as i64
}

/// The diagnostic window's layout for a client area, at a DPI: the log fills the area
/// above a row of two buttons at the bottom right, "clear" left of "copy", all with a
/// 12-pixel padding, 126 × 30 buttons and a log at least 40 pixels high (lengths at 96
/// DPI); a client area smaller than that is treated as that large.
pub open spec fn spec_diagnostic_layout(client_width: int, client_height: int, dpi: u32) -> DiagnosticLayout {
    let p = scaled(12, dpi as int);
    let bw = scaled(126, dpi as int);
    let bh = scaled(30, dpi as int);
    let min_edit = scaled(40, dpi as int);
    let width = larger(client_width, p * 2 + bw * 2);
    let height = larger(client_height, p * 3 + bh + min_edit);
    let edit_height = height - p * 3 - bh;
    let buttons_y = p * 2 + edit_height;
    DiagnosticLayout {
        edit: placed(p, p, width - p * 2, edit_height),
        copy_button: placed(width - p - bw, buttons_y, bw, bh),
        clear_button: placed(width - p * 2 - bw * 2, buttons_y, bw, bh),
    }
}

/// Lays out the diagnostic window.
pub fn diagnostic_layout(client_width: i32, client_height: i32, dpi: u32) -> (layout: DiagnosticLayout)
    requires
        diagnostic_dpi_fits(dpi),
    ensures
        layout == spec_diagnostic_layout(client_width as int, client_height as int, dpi),
{
    let p = scale_dimension(12, dpi);
    let bw = scale_dimension(126, dpi);
    let bh = scale_dimension(30, dpi);
    let min_edit = scale_dimension(40, dpi);
    let minimum_width = p * 2 + bw * 2;
    let width = if client_width >= minimum_width {
        client_width
    } else {
        minimum_width
    };
    let minimum_height = p * 3 + bh + min_edit;
    let height = if client_height >= minimum_height {
        client_height
    } else {
        minimum_height
    };
    let edit_height = height - p * 3 - bh;
    let buttons_y = p * 2 + edit_height;
    DiagnosticLayout {
        edit: place(p, p, width - p * 2, edit_height),
        copy_button: place(width - p - bw, buttons_y, bw, bh),
        clear_button: place(width - p * 2 - bw * 2, buttons_y, bw, bh),
    }
}

/// The diagnostic buttons sit on one row a padding below the log, "clear" a padding to
/// the left of "copy", and both inside the area.
pub proof fn lemma_diagnostic_buttons_in_order(client_width: i32, client_height: i32, dpi: u32)
    requires
        diagnostic_dpi_fits(dpi),
        dpi >= 2,
    ensures
        ({
            let l = spec_diagnostic_layout(client_width as int, client_height as int, dpi);
            let p = scaled(12, dpi as int);
            &&& l.clear_button.x + l.clear_button.width + p == l.copy_button.x
            &&& l.clear_button.y == l.copy_button.y
            &&& l.edit.y + l.edit.height + p == l.copy_button.y
            &&& l.clear_button.x >= 0
        }),
{
    assert((12 * dpi + 48) / 96 >= 0) by (nonlinear_arith)
        requires
            dpi >= 2,
    ;
    assert((126 * dpi + 48) / 96 >= 1) by (nonlinear_arith)
        requires
            dpi >= 2,
    ;
    assert((30 * dpi + 48) / 96 >= 0) by (nonlinear_arith)
        requires
            dpi >= 2,
    ;
    assert((40 * dpi + 48) / 96 >= 1) by (nonlinear_arith)
        requires
            dpi >= 2,
    ;
}

/// The scaled lengths of the settings window stay small enough to add up for `rows`
/// rows of fields in a client area of the given size.
pub open spec fn settings_dpi_fits(client_width: int, client_bottom: int, dpi: u32, rows: int) -> bool {
    let p = scaled(16, dpi as int);
    let row = scaled(36, dpi as int);
    let label = scaled(310, dpi as int);
    let bw = scaled(130, dpi as int);
    let bh = scaled(32, dpi as int);
    &&& 0 <= client_width <= i32::MAX
    &&& 0 <= client_bottom <= i32::MAX
    &&& p * 3 + bw * 3 + label <= i32::MAX
    &&& p + rows * row + row + 6 <= i32::MAX
    &&& p + bh <= i32::MAX
}

/// Whether the settings window can be laid out: `settings_dpi_fits`.
pub fn settings_dpi_is_supported(client_width: i32, client_bottom: i32, dpi: u32, rows: usize) -> (b: bool)
    ensures
        b == settings_dpi_fits(client_width as int, client_bottom as int, dpi, rows as int),
{
    let p = scaled_wide(16, dpi);
    let row = scaled_wide(36, dpi);
    let label = scaled_wide(310, dpi);
    let bw = scaled_wide(130, dpi);
    let bh = scaled_wide(32, dpi);
    proof {
        assert(row >= 0) by (nonlinear_arith)
            requires
                row == (36 * dpi + 48) / 96,
                dpi >= 0,
        ;
    }
    if client_width < 0 || client_bottom < 0 || p * 3 + bw * 3 + label > i32::MAX as i64 || p + bh > i32::MAX as i64 {
        return false;
    }
    if rows as u64 > 0x7fff_ffff {
        proof {
            assert(rows * row >= 0) by (nonlinear_arith)
                requires
                    rows >= 0,
                    row >= 0,
            ;
            if row >= 1 {
                assert(rows * row >= rows) by (nonlinear_arith)
                    requires
                        row >= 1,
                        rows >= 0,
                ;
            }
        }
        return row == 0 && p + 6 <= i32::MAX as i64;
    }
    proof {
        assert(rows * row <= 0x7fff_ffff * 0xffff_ffff) by (nonlinear_arith)
            requires
                0 <= rows <= 0x7fff_ffff,
                0 <= row <= 0xffff_ffff,
        ;
    }
    p + (rows as i64) * row + row + 6 <= i32::MAX as i64
}

/// The settings window's layout: a row per field with its label on the left and its
/// edit box filling the rest of the width, the check box below the rows, and the "save",
/// "apply" and "cancel" buttons in a row at the bottom right.
#[derive(Clone, Debug)]
pub struct SettingsLayout {
    pub labels: Vec<Placement>,
    pub edits: Vec<Placement>,
    pub checkbox: Placement,
    pub save_button: Placement,
    pub apply_button: Placement,
    pub cancel_button: Placement,
}

/// The label of field row `index`.
pub open spec fn settings_label(index: int, dpi: u32) -> Placement {
    let p = scaled(16, dpi as int);
    let row = scaled(36, dpi as int);
    let label = scaled(310, dpi as int);
    placed(p, p + index * row + 6, label, row - 6)
}

/// The edit box of field row `index`.
pub open spec fn settings_edit(index: int, client_width: int, dpi: u32) -> Placement {
    let p = scaled(16, dpi as int);
    let row = scaled(36, dpi as int);
    let label = scaled(310, dpi as int);
    placed(p + label, p + index * row, client_width - p * 2 - label, row - 6)
}

/// The button `slot` places from the right edge (0 for the rightmost).
pub open spec fn settings_button(slot: int, client_width: int, client_bottom: int, dpi: u32) -> Placement {
    let p = scaled(16, dpi as int);
    let bw = scaled(130, dpi as int);
    let bh = scaled(32, dpi as int);
    let offset = if slot == 0 {
        p + bw
    } else if slot == 1 {
        p * 2 + bw * 2
    } else {
        p * 3 + bw * 3
    };
    placed(client_width - offset, client_bottom - p - bh, bw, bh)
}

proof fn lemma_scaled_settings_lengths(dpi: u32)
    ensures
        scaled(16, dpi as int) >= 0,
        scaled(36, dpi as int) >= 0,
        scaled(310, dpi as int) >= 0,
        scaled(130, dpi as int) >= 0,
        scaled(32, dpi as int) >= 0,
        scaled(36, dpi as int) >= scaled(16, dpi as int),
{
    assert((36 * dpi + 48) / 96 >= (16 * dpi + 48) / 96) by (nonlinear_arith)
        requires
            dpi >= 0,
    ;
}

/// Lays out the settings window for `rows` fields.
pub fn settings_layout(client_width: i32, client_bottom: i32, dpi: u32, rows: usize) -> (layout: SettingsLayout)
    requires
        settings_dpi_fits(client_width as int, client_bottom as int, dpi, rows as int),
    ensures
        layout.labels@.len() == rows,
        layout.edits@.len() == rows,
        forall|i: int| 0 <= i < rows ==> #[trigger] layout.labels@[i] == settings_label(i, dpi),
        forall|i: int| 0 <= i < rows ==> #[trigger] layout.edits@[i] == settings_edit(i, client_width as int, dpi),
        layout.checkbox == placed(
            scaled(16, dpi as int),
            scaled(16, dpi as int) + rows * scaled(36, dpi as int),
            client_width - scaled(16, dpi as int) * 2,
            scaled(36, dpi as int),
        ),
        layout.cancel_button == settings_button(0, client_width as int, client_bottom as int, dpi),
        layout.apply_button == settings_button(1, client_width as int, client_bottom as int, dpi),
        layout.save_button == settings_button(2, client_width as int, client_bottom as int, dpi),
{
    proof {
        lemma_scaled_settings_lengths(dpi);
    }
    let p = scale_dimension(16, dpi);
    let row = scale_dimension(36, dpi);
    let label = scale_dimension(310, dpi);
    let bw = scale_dimension(130, dpi);
    let bh = scale_dimension(32, dpi);
    let mut labels: Vec<Placement> = Vec::new();
    let mut edits: Vec<Placement> = Vec::new();
    let mut index: usize = 0;
    let mut y: i32 = p;
    while index < rows
        invariant
            settings_dpi_fits(client_width as int, client_bottom as int, dpi, rows as int),
            p == scaled(16, dpi as int),
            row == scaled(36, dpi as int),
            label == scaled(310, dpi as int),
            p >= 0,
            row >= p,
            label >= 0,
            0 <= index <= rows,
            y == p + index * row,
            labels@.len() == index,
            edits@.len() == index,
            forall|i: int| 0 <= i < index ==> #[trigger] labels@[i] == settings_label(i, dpi),
            forall|i: int| 0 <= i < index ==> #[trigger] edits@[i] == settings_edit(i, client_width as int, dpi),
        decreases rows - index,
    {
        proof {
            assert(p + index * row + row + 6 <= p + rows * row + row + 6) by (nonlinear_arith)
                requires
                    index < rows,
                    row >= 0,
            ;
        }
        labels.push(place(p, y + 6, label, row - 6));
        edits.push(place(p + label, y, client_width - p * 2 - label, row - 6));
        y = y + row;
        index += 1;
        proof {
            assert(y == p + index * row) by (nonlinear_arith)
                requires
                    y == p + (index - 1) * row + row,
            ;
        }
    }
    let checkbox = place(p, y, client_width - p * 2, row);
    let button_y = client_bottom - p - bh;
    let cancel_button = place(client_width - p - bw, button_y, bw, bh);
    let apply_button = place(client_width - p * 2 - bw * 2, button_y, bw, bh);
    let save_button = place(client_width - p * 3 - bw * 3, button_y, bw, bh);
    SettingsLayout { labels, edits, checkbox, save_button, apply_button, cancel_button }
}

/// The settings buttons stand left to right as "save", "apply", "cancel", each a padding
/// apart, on one row.
pub proof fn lemma_settings_buttons_in_order(client_width: i32, client_bottom: i32, dpi: u32, rows: int)
    requires
        settings_dpi_fits(client_width as int, client_bottom as int, dpi, rows),
        dpi >= 1,
    ensures
        ({
            let save = settings_button(2, client_width as int, client_bottom as int, dpi);
            let apply = settings_button(1, client_width as int, client_bottom as int, dpi);
            let cancel = settings_button(0, client_width as int, client_bottom as int, dpi);
            let p = scaled(16, dpi as int);
            &&& save.x + save.width + p == apply.x
            &&& apply.x + apply.width + p == cancel.x
            &&& save.y == apply.y && apply.y == cancel.y
        }),
{
    lemma_scaled_settings_lengths(dpi);
    assert((130 * dpi + 48) / 96 >= 1) by (nonlinear_arith)
        requires
            dpi >= 1,
    ;
}

/// The smallest size the settings window may be dragged to: 720 × 610 at 96 DPI.
pub fn settings_minimum_size(dpi: u32) -> (size: (i32, i32))
    ensures
        size.0 == scaled(720, dpi as int) as i32,
        size.1 == scaled(610, dpi as int) as i32,
{
    (scale_dimension(720, dpi), scale_dimension(610, dpi))
}

} // verus!
