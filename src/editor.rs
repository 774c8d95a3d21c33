//! The synchronisation engine: one canonical colour and the editable views
//! kept beside it (HSB, HSL, RGB, hex text, alpha), reconciled after each
//! edit without cycling and without losing the hue at achromatic colours.
use vstd::prelude::*;
use crate::color::{hex_text_spec, parse_hex_spec, rgba_wf, Rgba, SolidColor, HALF_LEVEL};
use crate::hex::{leading_hashes, strip_hashes};
use crate::math::{
    hsb_to_hsl, hsb_to_hsl_spec, hsb_to_rgb, hsb_to_rgb_spec, hsl_to_hsb, hsl_to_hsb_spec,
    rgb_to_hsb, rgb_to_hsb_spec, dist, UNIT,
};

verus! {

/// Tolerance (0.001) under which two colours count as equal when deciding
/// whether to publish; also the HSL view tolerance.
pub const CHANGE_TOLERANCE: u64 = 2_550_000;

/// Tolerance (0.002) of the RGB view and of RGB edits.
pub const RGB_TOLERANCE: u64 = 5_100_000;

/// Tolerance (0.003) on RGB when hex text is committed.
pub const HEX_RGB_TOLERANCE: u64 = 7_650_000;

/// Tolerance (0.004) on alpha when hex text is committed.
pub const HEX_ALPHA_TOLERANCE: u64 = 10_200_000;

/// Tolerance (0.005) under which a canonical change counts as the echo of
/// the engine's own HSB edit.
pub const ECHO_TOLERANCE: u64 = 12_750_000;

/// Saturation and brightness must both exceed this (0.001) for a colour's
/// hue to be adopted.
pub const DEGENERATE_EPSILON: u64 = 2_550_000;

/// The state of the engine as plain values.
pub struct EditorModel {
    pub color: Rgba,
    pub hue: int,
    pub sat: int,
    pub bright: int,
    pub alpha: int,
    pub sat_hsl: int,
    pub light: int,
    pub red: int,
    pub green: int,
    pub blue: int,
    pub hex: Seq<char>,
}

/// Every view lies in range.
pub open spec fn model_wf(m: EditorModel) -> bool {
    let u = UNIT as int;
    &&& rgba_wf(m.color)
    &&& 0 <= m.hue < u
    &&& 0 <= m.sat <= u
    &&& 0 <= m.bright <= u
    &&& 0 <= m.alpha <= u
    &&& 0 <= m.sat_hsl <= u
    &&& 0 <= m.light <= u
    &&& 0 <= m.red <= u
    &&& 0 <= m.green <= u
    &&& 0 <= m.blue <= u
}

/// The colour that an HSB triple and alpha stand for.
pub open spec fn hsb_color(h: int, s: int, v: int, a: int) -> Rgba {
    let (r, g, b) = hsb_to_rgb_spec(h, s, v);
    Rgba { r, g, b, a }
}

/// Whether two colours differ by more than `tol` in some channel.
pub open spec fn colors_differ(x: Rgba, y: Rgba, tol: int) -> bool {
    dist(x.r, y.r) > tol || dist(x.g, y.g) > tol || dist(x.b, y.b) > tol || dist(x.a, y.a) > tol
}

/// Whether hex text parses to colour `c`, every channel (alpha included)
/// within half an 8-bit level.
pub open spec fn text_shows(text: Seq<char>, c: Rgba) -> bool {
    match parse_hex_spec(text) {
        Some(p) => dist(p.r, c.r) <= HALF_LEVEL && dist(p.g, c.g) <= HALF_LEVEL && dist(p.b, c.b)
            <= HALF_LEVEL && dist(p.a, c.a) <= HALF_LEVEL,
        None => false,
    }
}

/// The hex text after the colour became `c`: kept when it already parses
/// to `c`, replaced by `c`'s own text otherwise.
pub open spec fn reconciled_hex(text: Seq<char>, c: Rgba) -> Seq<char> {
    if text_shows(text, c) { text } else { hex_text_spec(c) }
}

/// Steps that follow any change of the HSB triple: the HSL pair and the
/// RGB triple are recomputed from it and written when they differ beyond
/// their tolerances.
pub open spec fn synced_views(m: EditorModel) -> EditorModel {
    let (_, sl, l) = hsb_to_hsl_spec(m.hue, m.sat, m.bright);
    let m1 = if dist(m.sat_hsl, sl) > CHANGE_TOLERANCE || dist(m.light, l) > CHANGE_TOLERANCE {
        EditorModel { sat_hsl: sl, light: l, ..m }
    } else {
        m
    };
    let (r, g, b) = hsb_to_rgb_spec(m.hue, m.sat, m.bright);
    if dist(m.red, r) > RGB_TOLERANCE || dist(m.green, g) > RGB_TOLERANCE || dist(m.blue, b)
        > RGB_TOLERANCE {
        EditorModel { red: r, green: g, blue: b, ..m1 }
    } else {
        m1
    }
}

/// Adopt the HSB of colour `c`: saturation and brightness always, the hue
/// only when saturation and brightness both exceed `DEGENERATE_EPSILON`.
pub open spec fn adopted_hsb(m: EditorModel, c: Rgba) -> EditorModel {
    let (h, s, v) = rgb_to_hsb_spec(c.r, c.g, c.b);
    EditorModel {
        hue: if s > DEGENERATE_EPSILON && v > DEGENERATE_EPSILON { h } else { m.hue },
        sat: s,
        bright: v,
        ..m
    }
}

/// The HSB triple (with alpha) was committed: the views follow it, and the
/// colour it stands for is published when it differs from the canonical one
/// beyond `CHANGE_TOLERANCE`. The second component is what was published.
pub open spec fn after_hsb_commit(m: EditorModel) -> (EditorModel, Option<Rgba>) {
    let c = hsb_color(m.hue, m.sat, m.bright, m.alpha);
    let m1 = synced_views(m);
    if colors_differ(c, m.color, CHANGE_TOLERANCE as int) {
        (EditorModel { color: c, hex: reconciled_hex(m.hex, c), ..m1 }, Some(c))
    } else {
        (m1, None)
    }
}

/// The engine's state after the user set the HSB triple.
pub open spec fn after_set_hsb(m: EditorModel, h: int, s: int, v: int) -> (EditorModel, Option<Rgba>) {
    after_hsb_commit(EditorModel { hue: h, sat: s, bright: v, ..m })
}

/// The engine's state after the user set alpha.
pub open spec fn after_set_alpha(m: EditorModel, a: int) -> (EditorModel, Option<Rgba>) {
    after_hsb_commit(EditorModel { alpha: a, ..m })
}

/// The engine's state after the canonical colour was changed from outside.
/// A change within `CHANGE_TOLERANCE`, or one that the current HSB triple
/// already renders within `ECHO_TOLERANCE`, touches only the colour and the
/// hex text; any other adopts the colour's HSB (keeping the hue of a
/// degenerate colour) and its alpha.
pub open spec fn after_set_canonical(m: EditorModel, c: Rgba) -> EditorModel {
    let (er, eg, eb) = hsb_to_rgb_spec(m.hue, m.sat, m.bright);
    let quiet = EditorModel { color: c, hex: reconciled_hex(m.hex, c), ..m };
    if !colors_differ(c, m.color, CHANGE_TOLERANCE as int - 1) {
        quiet
    } else if dist(er, c.r) < ECHO_TOLERANCE && dist(eg, c.g) < ECHO_TOLERANCE && dist(eb, c.b)
        < ECHO_TOLERANCE && dist(m.alpha, c.a) < ECHO_TOLERANCE {
        quiet
    } else {
        synced_views(adopted_hsb(EditorModel { alpha: c.a, ..quiet }, c))
    }
}

/// The engine's state after hex text was committed. Text that does not
/// parse is only stored. Parsed text whose RGB differs from the canonical
/// colour beyond `HEX_RGB_TOLERANCE`, or that carries an alpha (eight
/// digits) differing from the alpha view beyond `HEX_ALPHA_TOLERANCE`, is
/// published and its HSB adopted; the alpha view is kept unless the text
/// carried such an alpha of its own.
pub open spec fn after_set_hex(m: EditorModel, text: Seq<char>) -> (EditorModel, Option<Rgba>) {
    let m0 = EditorModel { hex: text, ..m };
    match parse_hex_spec(text) {
        None => (m0, None),
        Some(p) => {
            let rgb_changed = dist(p.r, m.color.r) > HEX_RGB_TOLERANCE || dist(p.g, m.color.g)
                > HEX_RGB_TOLERANCE || dist(p.b, m.color.b) > HEX_RGB_TOLERANCE;
            let alpha_changed = strip_hashes(text).len() == 8 && dist(p.a, m.alpha)
                > HEX_ALPHA_TOLERANCE;
            if !rgb_changed && !alpha_changed {
                (m0, None)
            } else {
                let c = Rgba { r: p.r, g: p.g, b: p.b, a: if alpha_changed { p.a } else { m.alpha } };
                (synced_views(adopted_hsb(EditorModel { color: c, alpha: c.a, ..m0 }, c)), Some(c))
            }
        },
    }
}

/// The engine's state after the user set the HSL pair: the hue is held,
/// saturation and brightness follow the pair where they differ beyond
/// `CHANGE_TOLERANCE`, and a change of either is committed as an HSB edit.
pub open spec fn after_set_hsl(m: EditorModel, sl: int, l: int) -> (EditorModel, Option<Rgba>) {
    let m0 = EditorModel { sat_hsl: sl, light: l, ..m };
    let (_, ns, nb) = hsl_to_hsb_spec(m.hue, sl, l);
    let s_changed = dist(m.sat, ns) > CHANGE_TOLERANCE;
    let b_changed = dist(m.bright, nb) > CHANGE_TOLERANCE;
    if !s_changed && !b_changed {
        (m0, None)
    } else {
        after_hsb_commit(
            EditorModel {
                sat: if s_changed { ns } else { m.sat },
                bright: if b_changed { nb } else { m.bright },
                ..m0
            },
        )
    }
}

/// The engine's state after the user set the RGB triple: its HSB replaces
/// the working triple component by component where it differs beyond
/// `RGB_TOLERANCE` (the hue only for a non-degenerate colour), and a change
/// of any is committed as an HSB edit.
pub open spec fn after_set_rgb(m: EditorModel, r: int, g: int, b: int) -> (EditorModel, Option<Rgba>) {
    let m0 = EditorModel { red: r, green: g, blue: b, ..m };
    let (nh, ns, nb) = rgb_to_hsb_spec(r, g, b);
    let h_changed = ns > DEGENERATE_EPSILON && nb > DEGENERATE_EPSILON && dist(m.hue, nh)
        > RGB_TOLERANCE;
    let s_changed = dist(m.sat, ns) > RGB_TOLERANCE;
    let b_changed = dist(m.bright, nb) > RGB_TOLERANCE;
    if !h_changed && !s_changed && !b_changed {
        (m0, None)
    } else {
        after_hsb_commit(
            EditorModel {
                hue: if h_changed { nh } else { m.hue },
                sat: if s_changed { ns } else { m.sat },
                bright: if b_changed { nb } else { m.bright },
                ..m0
            },
        )
    }
}

/// Hue memory: while saturation is 0 and the canonical colour is what the
/// working triple renders, setting another hue leaves the canonical colour
/// as it was and publishes nothing; raising the saturation afterwards keeps
/// that hue and renders it (within `CHANGE_TOLERANCE`).
pub proof fn lemma_hue_memory(m: EditorModel, h: int, s: int)
    requires
        model_wf(m),
        m.sat == 0,
        m.color == hsb_color(m.hue, 0, m.bright, m.alpha),
        0 <= h < UNIT,
        0 < s <= UNIT,
    ensures
        after_set_hsb(m, h, 0, m.bright).0.color == m.color,
        after_set_hsb(m, h, 0, m.bright).1.is_none(),
        after_set_hsb(m, h, 0, m.bright).0.hue == h,
        ({
            let m1 = after_set_hsb(m, h, 0, m.bright).0;
            let m2 = after_set_hsb(m1, m1.hue, s, m1.bright).0;
            m2.hue == h && !colors_differ(m2.color, hsb_color(h, s, m.bright, m.alpha), CHANGE_TOLERANCE as int)
        }),
{
    assert(hsb_color(h, 0, m.bright, m.alpha) == m.color);
}

/// A canonical colour whose saturation or brightness is degenerate never
/// overwrites the working hue.
pub proof fn lemma_degenerate_keeps_hue(m: EditorModel, c: Rgba)
    requires
        model_wf(m),
        rgba_wf(c),
        rgb_to_hsb_spec(c.r, c.g, c.b).1 <= DEGENERATE_EPSILON || rgb_to_hsb_spec(c.r, c.g, c.b).2
            <= DEGENERATE_EPSILON,
    ensures
        after_set_canonical(m, c).hue == m.hue,
{
}

/// After an HSB commit settles, every view agrees with the HSB triple: the
/// canonical colour and the HSL pair within `CHANGE_TOLERANCE`, the RGB
/// triple within `RGB_TOLERANCE`; and what was published is the canonical
/// colour.
pub proof fn lemma_commit_agrees(m: EditorModel)
    ensures
        ({
            let (m2, published) = after_hsb_commit(m);
            let (_, sl, l) = hsb_to_hsl_spec(m.hue, m.sat, m.bright);
            let (r, g, b) = hsb_to_rgb_spec(m.hue, m.sat, m.bright);
            &&& !colors_differ(m2.color, hsb_color(m.hue, m.sat, m.bright, m.alpha), CHANGE_TOLERANCE as int)
            &&& dist(m2.sat_hsl, sl) <= CHANGE_TOLERANCE && dist(m2.light, l) <= CHANGE_TOLERANCE
            &&& dist(m2.red, r) <= RGB_TOLERANCE && dist(m2.green, g) <= RGB_TOLERANCE
                && dist(m2.blue, b) <= RGB_TOLERANCE
            &&& (m2.hue, m2.sat, m2.bright, m2.alpha) == (m.hue, m.sat, m.bright, m.alpha)
            &&& (published.is_some() ==> published.unwrap() == m2.color)
        }),
{
}

/// The engine: the canonical colour, the working HSB triple with alpha, the
/// HSL pair, the RGB triple, the hex text buffer, and two guard flags that
/// are set only while the engine itself writes the HSL pair or the RGB
/// triple, so that the views' own edit handlers ignore those writes.
pub struct ColorEditor {
    color: SolidColor,
    hue: u64,
    sat: u64,
    bright: u64,
    alpha: u64,
    sat_hsl: u64,
    light: u64,
    red: u64,
    green: u64,
    blue: u64,
    hex: String,
    hsl_guard: bool,
    rgb_guard: bool,
}

impl View for ColorEditor {
    type V = EditorModel;

    closed spec fn view(&self) -> EditorModel {
        EditorModel {
            color: self.color@,
            hue: self.hue as int,
            sat: self.sat as int,
            bright: self.bright as int,
            alpha: self.alpha as int,
            sat_hsl: self.sat_hsl as int,
            light: self.light as int,
            red: self.red as int,
            green: self.green as int,
            blue: self.blue as int,
            hex: self.hex@,
        }
    }
}

/// Distance between two channel values.
fn dist_of(x: u64, y: u64) -> (d: u64)
    ensures
        d as int == dist(x as int, y as int),
{
    if x >= y { x - y } else { y - x }
}

/// Whether two colours differ by more than `tol` in some channel.
fn differ(x: SolidColor, y: SolidColor, tol: u64) -> (r: bool)
    ensures
        r == colors_differ(x@, y@, tol as int),
{
    dist_of(x.r(), y.r()) > tol || dist_of(x.g(), y.g()) > tol || dist_of(x.b(), y.b()) > tol
        || dist_of(x.a(), y.a()) > tol
}

/// Whether hex text parses to `c` within half a level in every channel.
fn shows(text: &str, c: SolidColor) -> (r: bool)
    ensures
        r == text_shows(text@, c@),
{
    match SolidColor::from_hex(text) {
        Some(p) => dist_of(p.r(), c.r()) <= HALF_LEVEL && dist_of(p.g(), c.g()) <= HALF_LEVEL
            && dist_of(p.b(), c.b()) <= HALF_LEVEL && dist_of(p.a(), c.a()) <= HALF_LEVEL,
        None => false,
    }
}

/// The colour that a published result stands for.
pub open spec fn published_view(o: Option<SolidColor>) -> Option<Rgba> {
    match o {
        Some(c) => Some(c@),
        None => None,
    }
}

impl ColorEditor {
    /// The engine is consistent and no guard is set.
    pub closed spec fn wf(&self) -> bool {
        model_wf(self@) && !self.hsl_guard && !self.rgb_guard
    }

    /// The engine's views of the initial colour: its HSB (hue 0 unless the
    /// colour is non-degenerate), its alpha and hex text, the HSL pair of its
    /// HSB, and its own RGB channels.
    pub open spec fn initial_model(c: Rgba) -> EditorModel {
        let (h, s, v) = rgb_to_hsb_spec(c.r, c.g, c.b);
        let hue = if s > DEGENERATE_EPSILON && v > DEGENERATE_EPSILON { h } else { 0 };
        let (_, sl, l) = hsb_to_hsl_spec(hue, s, v);
        EditorModel {
            color: c,
            hue,
            sat: s,
            bright: v,
            alpha: c.a,
            sat_hsl: sl,
            light: l,
            red: c.r,
            green: c.g,
            blue: c.b,
            hex: hex_text_spec(c),
        }
    }

    /// An engine whose views are derived from `c`.
    pub fn new(c: SolidColor) -> (e: ColorEditor)
        requires
            c.wf(),
        ensures
            e.wf(),
            model_wf(e@),
            e@ == Self::initial_model(c@),
    {
        let (h, s, v) = c.to_hsb();
        let hue = if s > DEGENERATE_EPSILON && v > DEGENERATE_EPSILON { h } else { 0 };
        let (_, sl, l) = hsb_to_hsl(hue, s, v);
        ColorEditor {
            color: c,
            hue,
            sat: s,
            bright: v,
            alpha: c.a(),
            sat_hsl: sl,
            light: l,
            red: c.r(),
            green: c.g(),
            blue: c.b(),
            hex: c.to_hex(),
            hsl_guard: false,
            rgb_guard: false,
        }
    }

    /// Replace the hex text by the text of `c` unless it already parses to `c`.
    fn reconcile_hex(&mut self, c: SolidColor)
        requires
            c.wf(),
        ensures
            final(self)@ == (EditorModel { hex: reconciled_hex(old(self)@.hex, c@), ..old(self)@ }),
            final(self).hsl_guard == old(self).hsl_guard,
            final(self).rgb_guard == old(self).rgb_guard,
    {
        if !shows(self.hex.as_str(), c) {
            self.hex = c.to_hex();
        }
    }

    /// Recompute the HSL pair and the RGB triple from the HSB triple, each
    /// written under its guard, with the view's own edit handler called and
    /// ignoring the write.
    fn sync_views(&mut self)
        requires
            model_wf(old(self)@),
            !old(self).hsl_guard,
            !old(self).rgb_guard,
        ensures
            final(self)@ == synced_views(old(self)@),
            model_wf(final(self)@),
            !final(self).hsl_guard,
            !final(self).rgb_guard,
        decreases 1int,
    {
        let (_, sl, l) = hsb_to_hsl(self.hue, self.sat, self.bright);
        if dist_of(self.sat_hsl, sl) > CHANGE_TOLERANCE || dist_of(self.light, l) > CHANGE_TOLERANCE {
            self.hsl_guard = true;
            self.sat_hsl = sl;
            self.light = l;
            let _ = self.hsl_edited();
            self.hsl_guard = false;
        }
        let (r, g, b) = hsb_to_rgb(self.hue, self.sat, self.bright);
        if dist_of(self.red, r) > RGB_TOLERANCE || dist_of(self.green, g) > RGB_TOLERANCE
            || dist_of(self.blue, b) > RGB_TOLERANCE {
            self.rgb_guard = true;
            self.red = r;
            self.green = g;
            self.blue = b;
            let _ = self.rgb_edited();
            self.rgb_guard = false;
        }
    }

    /// The HSB triple or alpha was committed.
    fn commit_hsb(&mut self) -> (published: Option<SolidColor>)
        requires
            model_wf(old(self)@),
            !old(self).hsl_guard,
            !old(self).rgb_guard,
        ensures
            (final(self)@, published_view(published)) == after_hsb_commit(old(self)@),
            model_wf(final(self)@),
            !final(self).hsl_guard,
            !final(self).rgb_guard,
        decreases 2int,
    {
        let c = SolidColor::from_hsb(self.hue, self.sat, self.bright, self.alpha);
        let publish = differ(c, self.color, CHANGE_TOLERANCE);
        self.sync_views();
        if publish {
            self.color = c;
            self.reconcile_hex(c);
            Some(c)
        } else {
            None
        }
    }

    /// Handler of an edit of the HSL pair (already stored).
    fn hsl_edited(&mut self) -> (published: Option<SolidColor>)
        requires
            model_wf(old(self)@),
            !old(self).rgb_guard,
        ensures
            old(self).hsl_guard ==> *final(self) == *old(self) && published.is_none(),
            !old(self).hsl_guard ==> (final(self)@, published_view(published)) == after_set_hsl(
                old(self)@,
                old(self)@.sat_hsl,
                old(self)@.light,
            ) && !final(self).hsl_guard,
            model_wf(final(self)@),
            !final(self).rgb_guard,
        decreases if old(self).hsl_guard { 0int } else { 3int },
    {
        if self.hsl_guard {
            return None;
        }
        let (_, ns, nb) = hsl_to_hsb(self.hue, self.sat_hsl, self.light);
        let s_changed = dist_of(self.sat, ns) > CHANGE_TOLERANCE;
        let b_changed = dist_of(self.bright, nb) > CHANGE_TOLERANCE;
        if !s_changed && !b_changed {
            return None;
        }
        if s_changed {
            self.sat = ns;
        }
        if b_changed {
            self.bright = nb;
        }
        self.commit_hsb()
    }

    /// Handler of an edit of the RGB triple (already stored).
    fn rgb_edited(&mut self) -> (published: Option<SolidColor>)
        requires
            model_wf(old(self)@),
            !old(self).hsl_guard,
        ensures
            old(self).rgb_guard ==> *final(self) == *old(self) && published.is_none(),
            !old(self).rgb_guard ==> (final(self)@, published_view(published)) == after_set_rgb(
                old(self)@,
                old(self)@.red,
                old(self)@.green,
                old(self)@.blue,
            ) && !final(self).rgb_guard,
            model_wf(final(self)@),
            !final(self).hsl_guard,
        decreases if old(self).rgb_guard { 0int } else { 3int },
    {
        if self.rgb_guard {
            return None;
        }
        let (nh, ns, nb) = rgb_to_hsb(self.red, self.green, self.blue);
        let h_changed = ns > DEGENERATE_EPSILON && nb > DEGENERATE_EPSILON && dist_of(self.hue, nh) > RGB_TOLERANCE;
        let s_changed = dist_of(self.sat, ns) > RGB_TOLERANCE;
        let b_changed = dist_of(self.bright, nb) > RGB_TOLERANCE;
        if !h_changed && !s_changed && !b_changed {
            return None;
        }
        if h_changed {
            self.hue = nh;
        }
        if s_changed {
            self.sat = ns;
        }
        if b_changed {
            self.bright = nb;
        }
        self.commit_hsb()
    }

    /// The user set the HSB triple. Returns the colour published to the
    /// owner, if any.
    pub fn set_hsb(&mut self, h: u64, s: u64, v: u64) -> (published: Option<SolidColor>)
        requires
            old(self).wf(),
            h < UNIT,
            s <= UNIT,
            v <= UNIT,
        ensures
            final(self).wf(),
            model_wf(final(self)@),
            (final(self)@, published_view(published)) == after_set_hsb(old(self)@, h as int, s as int, v as int),
    {
        self.hue = h;
        self.sat = s;
        self.bright = v;
        self.commit_hsb()
    }

    /// The user set alpha. Returns the colour published to the owner, if any.
    pub fn set_alpha(&mut self, a: u64) -> (published: Option<SolidColor>)
        requires
            old(self).wf(),
            a <= UNIT,
        ensures
            final(self).wf(),
            model_wf(final(self)@),
            (final(self)@, published_view(published)) == after_set_alpha(old(self)@, a as int),
    {
        self.alpha = a;
        self.commit_hsb()
    }

    /// The user set the HSL pair. Returns the colour published to the
    /// owner, if any.
    pub fn set_hsl(&mut self, sl: u64, l: u64) -> (published: Option<SolidColor>)
        requires
            old(self).wf(),
            sl <= UNIT,
            l <= UNIT,
        ensures
            final(self).wf(),
            model_wf(final(self)@),
            (final(self)@, published_view(published)) == after_set_hsl(old(self)@, sl as int, l as int),
    {
        self.sat_hsl = sl;
        self.light = l;
        self.hsl_edited()
    }

    /// The user set the RGB triple. Returns the colour published to the
    /// owner, if any. An edit whose HSB lies within `RGB_TOLERANCE` of the
    /// working triple changes neither the triple nor the canonical colour,
    /// and one whose hue lies within it leaves the hue alone.
    pub fn set_rgb(&mut self, r: u64, g: u64, b: u64) -> (published: Option<SolidColor>)
        requires
            old(self).wf(),
            r <= UNIT,
            g <= UNIT,
            b <= UNIT,
        ensures
            final(self).wf(),
            model_wf(final(self)@),
            (final(self)@, published_view(published)) == after_set_rgb(old(self)@, r as int, g as int, b as int),
            ({
                let (nh, ns, nb) = rgb_to_hsb_spec(r as int, g as int, b as int);
                dist(nh, old(self)@.hue) <= RGB_TOLERANCE ==> final(self)@.hue == old(self)@.hue
            }),
            ({
                let (nh, ns, nb) = rgb_to_hsb_spec(r as int, g as int, b as int);
                dist(nh, old(self)@.hue) <= RGB_TOLERANCE && dist(ns, old(self)@.sat) <= RGB_TOLERANCE
                    && dist(nb, old(self)@.bright) <= RGB_TOLERANCE ==> final(self)@.sat == old(self)@.sat
                    && final(self)@.bright == old(self)@.bright && final(self)@.color == old(self)@.color
                    && published.is_none()
            }),
    {
        self.red = r;
        self.green = g;
        self.blue = b;
        self.rgb_edited()
    }

    /// The canonical colour was changed from outside.
    pub fn set_canonical(&mut self, c: SolidColor)
        requires
            old(self).wf(),
            c.wf(),
        ensures
            final(self).wf(),
            model_wf(final(self)@),
            final(self)@ == after_set_canonical(old(self)@, c@),
    {
        let (er, eg, eb) = hsb_to_rgb(self.hue, self.sat, self.bright);
        let quiet = !differ(c, self.color, CHANGE_TOLERANCE - 1) || (dist_of(er, c.r()) < ECHO_TOLERANCE
            && dist_of(eg, c.g()) < ECHO_TOLERANCE && dist_of(eb, c.b()) < ECHO_TOLERANCE
            && dist_of(self.alpha, c.a()) < ECHO_TOLERANCE);
        self.color = c;
        self.reconcile_hex(c);
        if !quiet {
            self.alpha = c.a();
            self.adopt_hsb(c);
            self.sync_views();
        }
    }

    /// Hex text was committed. Returns the colour published to the owner,
    /// if any; text that does not parse changes nothing but the buffer.
    pub fn set_hex(&mut self, text: &str) -> (published: Option<SolidColor>)
        requires
            old(self).wf(),
        ensures
            final(self).wf(),
            model_wf(final(self)@),
            (final(self)@, published_view(published)) == after_set_hex(old(self)@, text@),
    {
        self.hex = String::from_str(text);
        let parsed = SolidColor::from_hex(text);
        match parsed {
            None => None,
            Some(p) => {
                let k = leading_hashes(text);
                let carries_alpha = text.unicode_len() - k == 8;
                let rgb_changed = dist_of(p.r(), self.color.r()) > HEX_RGB_TOLERANCE || dist_of(
                    p.g(),
                    self.color.g(),
                ) > HEX_RGB_TOLERANCE || dist_of(p.b(), self.color.b()) > HEX_RGB_TOLERANCE;
                let alpha_changed = carries_alpha && dist_of(p.a(), self.alpha) > HEX_ALPHA_TOLERANCE;
                if !rgb_changed && !alpha_changed {
                    return None;
                }
                let na = if alpha_changed { p.a() } else { self.alpha };
                let c = SolidColor::from_rgba(p.r(), p.g(), p.b(), na);
                self.color = c;
                self.alpha = na;
                self.adopt_hsb(c);
                self.sync_views();
                Some(c)
            },
        }
    }

    /// Adopt the HSB of `c`, keeping the hue of a degenerate colour.
    fn adopt_hsb(&mut self, c: SolidColor)
        requires
            c.wf(),
            model_wf(old(self)@),
        ensures
            final(self)@ == adopted_hsb(old(self)@, c@),
            model_wf(final(self)@),
            final(self).hsl_guard == old(self).hsl_guard,
            final(self).rgb_guard == old(self).rgb_guard,
    {
        let (h, s, v) = c.to_hsb();
        if s > DEGENERATE_EPSILON && v > DEGENERATE_EPSILON {
            self.hue = h;
        }
        self.sat = s;
        self.bright = v;
    }

    /// The canonical colour.
    pub fn color(&self) -> (c: SolidColor)
        ensures
            c@ == self@.color,
    {
        self.color
    }

    /// The working hue.
    pub fn hue(&self) -> (v: u64)
        ensures
            v == self@.hue,
    {
        self.hue
    }

    /// The working HSB saturation.
    pub fn saturation(&self) -> (v: u64)
        ensures
            v == self@.sat,
    {
        self.sat
    }

    /// The working brightness.
    pub fn brightness(&self) -> (v: u64)
        ensures
            v == self@.bright,
    {
        self.bright
    }

    /// The working alpha.
    pub fn alpha(&self) -> (v: u64)
        ensures
            v == self@.alpha,
    {
        self.alpha
    }

    /// The HSL view: saturation and lightness.
    pub fn hsl(&self) -> (v: (u64, u64))
        ensures
            v.0 == self@.sat_hsl,
            v.1 == self@.light,
    {
        (self.sat_hsl, self.light)
    }

    /// The RGB view.
    pub fn rgb(&self) -> (v: (u64, u64, u64))
        ensures
            v.0 == self@.red,
            v.1 == self@.green,
            v.2 == self@.blue,
    {
        (self.red, self.green, self.blue)
    }

    /// The hex text buffer.
    pub fn hex(&self) -> (t: String)
        ensures
            t@ == self@.hex,
    {
        self.hex.clone()
    }
}

} // verus!
