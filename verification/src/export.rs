//! The export of a spline as an XML element list.
//!
//! The document holds a declaration and a `root` element with one `element`
//! child. That child holds a `description`, then one `vertex` for each sample
//! with its position in feet, then one `roll` for each sample but the last
//! with the up and right axes of its orientation and the fraction of the
//! track's length at which it stands. Every number is written with five
//! fractional digits.
use crate::arith::{div_round, spec_div_round};
use crate::decimal::{format_micro, lemma_format_micro_chars, spec_format_micro};
use crate::geometry::{Orientation, Vector3};
use crate::spline::{polyline_length, spec_travelled, Sample, TrackSpline};
use crate::units::{m_to_ft_vec3, spec_m_to_ft_vec3, ONE};
use crate::xml::{
    close_tag, compact_writer, needs_no_escape, tag_closer, xml_compact, xml_declaration,
    xml_open, xml_tag_open, xml_text,
};
use vstd::prelude::*;
use xmlwriter::XmlWriter;

verus! {

/// The start tag of an element.
pub open spec fn open_tag(name: Seq<char>) -> Seq<char> {
    seq!['<'] + name + seq!['>']
}

/// An element with the given name around the given content.
#[verifier::opaque]
pub open spec fn xml_element(name: Seq<char>, body: Seq<char>) -> Seq<char> {
    open_tag(name) + body + close_tag(name)
}

/// An element that holds one number, written with five fractional digits.
#[verifier::opaque]
pub open spec fn number_xml(name: Seq<char>, value: int) -> Seq<char> {
    xml_element(name, spec_format_micro(value))
}

/// The `strict` flag, which is always false.
#[verifier::opaque]
pub open spec fn strict_xml() -> Seq<char> {
    xml_element("strict"@, "false"@)
}

/// The `description` element.
#[verifier::opaque]
pub open spec fn description_xml() -> Seq<char> {
    xml_element("description"@, "elimerl's fvd export"@)
}

/// The `vertex` element of a position given in metres.
#[verifier::opaque]
pub open spec fn vertex_xml(position: Vector3) -> Seq<char> {
    let feet = spec_m_to_ft_vec3(position@);
    xml_element(
        "vertex"@,
        number_xml("x"@, feet.x) + number_xml("y"@, feet.y) + number_xml("z"@, feet.z)
            + strict_xml(),
    )
}

/// The fraction of the track's length at which sample `i` stands, in
/// millionths; zero for a track without length.
pub open spec fn spec_coord(points: Seq<Sample>, i: int) -> int {
    let total = polyline_length(points);
    if total == 0 {
        0
    } else {
        spec_div_round(spec_travelled(points, i) * ONE, total)
    }
}

/// The `roll` element of an orientation that stands at the fraction `coord`
/// of the track: the up axis, the right axis as the export counts it (the
/// negated image of the x axis), and the fraction.
#[verifier::opaque]
pub open spec fn roll_xml(orientation: Orientation, coord: int) -> Seq<char> {
    let up = orientation.spec_up();
    let right = orientation.spec_right();
    xml_element(
        "roll"@,
        number_xml("ux"@, up.x) + number_xml("uy"@, up.y) + number_xml("uz"@, up.z) + number_xml(
            "rx"@,
            -right.x,
        ) + number_xml("ry"@, -right.y) + number_xml("rz"@, -right.z) + number_xml(
            "coord"@,
            coord,
        ) + strict_xml(),
    )
}

/// The `vertex` elements of the first `n` samples.
pub open spec fn vertices_xml(points: Seq<Sample>, n: int) -> Seq<char>
    decreases n,
{
    if n <= 0 {
        Seq::<char>::empty()
    } else {
        vertices_xml(points, n - 1) + vertex_xml(points[n - 1].0)
    }
}

/// The `roll` elements of the first `n` samples.
pub open spec fn rolls_xml(points: Seq<Sample>, n: int) -> Seq<char>
    decreases n,
{
    if n <= 0 {
        Seq::<char>::empty()
    } else {
        rolls_xml(points, n - 1) + roll_xml(points[n - 1].1, spec_coord(points, n - 1))
    }
}

/// The whole exported document for a sequence of samples.
pub open spec fn export_document(points: Seq<Sample>) -> Seq<char> {
    xml_declaration() + xml_element(
        "root"@,
        xml_element(
            "element"@,
            description_xml() + vertices_xml(points, points.len() as int) + rolls_xml(
                points,
                points.len() - 1,
            ),
        ),
    )
}

/// The text of a writer once a pending start tag has got its bracket.
pub open spec fn rendered(w: XmlWriter) -> Seq<char> {
    xml_text(w) + tag_closer(xml_tag_open(w))
}

/// Whether a writer stands inside an element.
pub open spec fn inside_element(w: XmlWriter) -> bool {
    xml_compact(w) && xml_open(w).len() > 0
}

/// Starts an element.
fn open_element(w: &mut XmlWriter, name: &str)
    requires
        xml_compact(*old(w)),
    ensures
        rendered(*final(w)) == rendered(*old(w)) + open_tag(name@),
        xml_open(*final(w)) == xml_open(*old(w)).push(name@),
        xml_tag_open(*final(w)),
        xml_compact(*final(w)),
{
    w.start_element(name);
    assert(rendered(*w) =~= rendered(*old(w)) + open_tag(name@));
}

/// Ends the innermost element, which has something in it.
fn close_element(w: &mut XmlWriter)
    requires
        inside_element(*old(w)),
        !xml_tag_open(*old(w)),
    ensures
        rendered(*final(w)) == rendered(*old(w)) + close_tag(xml_open(*old(w)).last()),
        xml_open(*final(w)) == xml_open(*old(w)).drop_last(),
        !xml_tag_open(*final(w)),
        xml_compact(*final(w)),
{
    w.end_element();
    assert(rendered(*w) =~= rendered(*old(w)) + close_tag(xml_open(*old(w)).last()));
}

/// Writes an element that holds the given text.
fn write_field(w: &mut XmlWriter, name: &str, text: &str)
    requires
        inside_element(*old(w)),
        needs_no_escape(text@),
    ensures
        rendered(*final(w)) == rendered(*old(w)) + xml_element(name@, text@),
        xml_open(*final(w)) == xml_open(*old(w)),
        !xml_tag_open(*final(w)),
        xml_compact(*final(w)),
{
    w.start_element(name);
    w.write_text(text);
    w.end_element();
    proof {
        reveal(xml_element);
        let opened = xml_open(*old(w)).push(name@);
        assert(opened.last() == name@);
        assert(opened.drop_last() =~= xml_open(*old(w)));
        assert(rendered(*w) =~= rendered(*old(w)) + xml_element(name@, text@));
    }
}

/// Writes an element that holds a number.
fn write_number(w: &mut XmlWriter, name: &str, value: i64)
    requires
        inside_element(*old(w)),
    ensures
        rendered(*final(w)) == rendered(*old(w)) + number_xml(name@, value as int),
        xml_open(*final(w)) == xml_open(*old(w)),
        !xml_tag_open(*final(w)),
        xml_compact(*final(w)),
{
    let text: String = format_micro(value);
    proof {
        lemma_format_micro_chars(value as int);
        reveal(number_xml);
    }
    write_field(w, name, text.as_str());
}

/// Writes the `strict` flag.
fn write_strict(w: &mut XmlWriter)
    requires
        inside_element(*old(w)),
    ensures
        rendered(*final(w)) == rendered(*old(w)) + strict_xml(),
        xml_open(*final(w)) == xml_open(*old(w)),
        !xml_tag_open(*final(w)),
        xml_compact(*final(w)),
{
    proof {
        reveal_strlit("false");
        reveal(strict_xml);
    }
    write_field(w, "strict", "false");
}

/// Concatenation does not depend on how it is grouped.
proof fn lemma_concat_assoc(a: Seq<char>, b: Seq<char>, c: Seq<char>)
    ensures
        (a + b) + c == a + (b + c),
{
    assert((a + b) + c =~= a + (b + c));
}

/// Text followed by a start tag, a body and the matching end tag is the
/// text followed by the element.
proof fn lemma_element_appended(before: Seq<char>, name: Seq<char>, body: Seq<char>)
    ensures
        before + open_tag(name) + body + close_tag(name) == before + xml_element(name, body),
{
    reveal(xml_element);
    assert(before + open_tag(name) + body + close_tag(name) =~= before + xml_element(name, body));
}

/// Writes the `vertex` element of a position.
fn write_vertex(w: &mut XmlWriter, position: Vector3)
    requires
        inside_element(*old(w)),
        position.in_range(),
    ensures
        rendered(*final(w)) == rendered(*old(w)) + vertex_xml(position),
        xml_open(*final(w)) == xml_open(*old(w)),
        !xml_tag_open(*final(w)),
        xml_compact(*final(w)),
{
    let feet: Vector3 = m_to_ft_vec3(position);
    let ghost before = rendered(*w);
    let ghost x = number_xml("x"@, feet.x as int);
    let ghost y = number_xml("y"@, feet.y as int);
    let ghost z = number_xml("z"@, feet.z as int);
    open_element(w, "vertex");
    write_number(w, "x", feet.x);
    write_number(w, "y", feet.y);
    write_number(w, "z", feet.z);
    write_strict(w);
    close_element(w);
    proof {
        let tag = open_tag("vertex"@);
        let opened = xml_open(*old(w)).push("vertex"@);
        assert(opened.last() == "vertex"@);
        assert(opened.drop_last() =~= xml_open(*old(w)));
        let start = before + tag;
        lemma_concat_assoc(start, x, y);
        lemma_concat_assoc(start, x + y, z);
        lemma_concat_assoc(start, x + y + z, strict_xml());
        lemma_element_appended(before, "vertex"@, x + y + z + strict_xml());
        reveal(vertex_xml);
    }
}

/// Writes the `roll` element of an orientation.
fn write_roll(w: &mut XmlWriter, orientation: Orientation, coord: i64)
    requires
        inside_element(*old(w)),
        orientation.is_unit(),
    ensures
        rendered(*final(w)) == rendered(*old(w)) + roll_xml(orientation, coord as int),
        xml_open(*final(w)) == xml_open(*old(w)),
        !xml_tag_open(*final(w)),
        xml_compact(*final(w)),
{
    let up: Vector3 = orientation.up();
    let right: Vector3 = orientation.right();
    let ghost before = rendered(*w);
    let ghost ux = number_xml("ux"@, up.x as int);
    let ghost uy = number_xml("uy"@, up.y as int);
    let ghost uz = number_xml("uz"@, up.z as int);
    let ghost rx = number_xml("rx"@, -right.x);
    let ghost ry = number_xml("ry"@, -right.y);
    let ghost rz = number_xml("rz"@, -right.z);
    let ghost at = number_xml("coord"@, coord as int);
    open_element(w, "roll");
    write_number(w, "ux", up.x);
    write_number(w, "uy", up.y);
    write_number(w, "uz", up.z);
    write_number(w, "rx", -right.x);
    write_number(w, "ry", -right.y);
    write_number(w, "rz", -right.z);
    write_number(w, "coord", coord);
    write_strict(w);
    close_element(w);
    proof {
        let opened = xml_open(*old(w)).push("roll"@);
        assert(opened.last() == "roll"@);
        assert(opened.drop_last() =~= xml_open(*old(w)));
        let start = before + open_tag("roll"@);
        lemma_concat_assoc(start, ux, uy);
        lemma_concat_assoc(start, ux + uy, uz);
        lemma_concat_assoc(start, ux + uy + uz, rx);
        lemma_concat_assoc(start, ux + uy + uz + rx, ry);
        lemma_concat_assoc(start, ux + uy + uz + rx + ry, rz);
        lemma_concat_assoc(start, ux + uy + uz + rx + ry + rz, at);
        lemma_concat_assoc(start, ux + uy + uz + rx + ry + rz + at, strict_xml());
        lemma_element_appended(
            before,
            "roll"@,
            ux + uy + uz + rx + ry + rz + at + strict_xml(),
        );
        reveal(roll_xml);
    }
}

/// A sample is never further along the track than the track is long.
proof fn lemma_coord_bound(travelled: int, total: int)
    requires
        0 <= travelled <= total,
        0 < total,
    ensures
        0 <= spec_div_round(travelled * ONE, total) <= ONE,
{
    assert(0 <= travelled * ONE <= ONE * total) by (nonlinear_arith)
        requires
            0 <= travelled <= total,
    {
    }
    crate::arith::lemma_div_round_monotonic(0, travelled * ONE, total);
    crate::arith::lemma_div_round_monotonic(travelled * ONE, ONE * total, total);
    crate::arith::lemma_div_round_exact(ONE as int, total);
    crate::arith::lemma_div_round_exact(0, total);
}

impl TrackSpline {
    /// The fraction of the track's length at which sample `i` stands.
    pub fn coord(&self, i: usize) -> (c: i64)
        requires
            self.wf(),
            i < self@.len(),
        ensures
            c == spec_coord(self@, i as int),
            0 <= c <= ONE,
    {
        let total: i64 = self.length();
        if total == 0 {
            0
        } else {
            let travelled: i64 = self.travelled(i);
            proof {
                lemma_coord_bound(travelled as int, total as int);
                assert(0 <= travelled * ONE <= 0x7fff_ffff_ffff_ffff * 1_000_000) by (nonlinear_arith)
                    requires
                        0 <= travelled <= 0x7fff_ffff_ffff_ffff,
                {
                }
            }
            div_round((travelled as i128) * (ONE as i128), total as i128) as i64
        }
    }

    /// Writes the spline out as an XML document.
    pub fn to_nolimits_element(&self) -> (s: String)
        requires
            self.wf(),
        ensures
            s@ == export_document(self@),
    {
        let mut w = compact_writer();
        w.write_declaration();
        open_element(&mut w, "root");
        open_element(&mut w, "element");
        proof {
            reveal_strlit("elimerl's fvd export");
            reveal(description_xml);
        }
        write_field(&mut w, "description", "elimerl's fvd export");
        let ghost points = self@;
        let ghost stack = seq!["root"@, "element"@];
        let ghost head = xml_declaration() + open_tag("root"@) + open_tag("element"@)
            + description_xml();
        assert(xml_open(w) =~= stack);
        assert(rendered(w) =~= head);
        let n: usize = self.len();
        let mut i: usize = 0;
        while i < n
            invariant
                self.wf(),
                points == self@,
                n == points.len(),
                i <= n,
                xml_compact(w),
                xml_open(w) == stack,
                !xml_tag_open(w),
                stack.len() == 2,
                rendered(w) == head + vertices_xml(points, i as int),
            decreases n - i,
        {
            let sample: Sample = self.point(i);
            write_vertex(&mut w, sample.0);
            proof {
                lemma_concat_assoc(head, vertices_xml(points, i as int), vertex_xml(sample.0));
            }
            i = i + 1;
        }
        let ghost vertices = head + vertices_xml(points, n as int);
        let mut j: usize = 0;
        while j + 1 < n
            invariant
                self.wf(),
                points == self@,
                n == points.len(),
                j <= n,
                n >= 1 ==> j <= n - 1,
                xml_compact(w),
                xml_open(w) == stack,
                !xml_tag_open(w),
                stack.len() == 2,
                rendered(w) == vertices + rolls_xml(points, j as int),
            decreases n - j,
        {
            let sample: Sample = self.point(j);
            let coord: i64 = self.coord(j);
            write_roll(&mut w, sample.1, coord);
            proof {
                lemma_concat_assoc(
                    vertices,
                    rolls_xml(points, j as int),
                    roll_xml(sample.1, coord as int),
                );
            }
            j = j + 1;
        }
        close_element(&mut w);
        close_element(&mut w);
        proof {
            assert(stack.last() == "element"@);
            assert(stack.drop_last().last() == "root"@);
            assert(stack.drop_last().drop_last().len() == 0);
            let rolls = rolls_xml(points, points.len() - 1);
            assert(rolls_xml(points, j as int) == rolls);
            let body = description_xml() + vertices_xml(points, n as int) + rolls;
            let inner = xml_element("element"@, body);
            let start = xml_declaration() + open_tag("root"@);
            lemma_concat_assoc(start, open_tag("element"@), description_xml());
            lemma_concat_assoc(
                start,
                open_tag("element"@) + description_xml(),
                vertices_xml(points, n as int),
            );
            lemma_concat_assoc(
                start,
                open_tag("element"@) + description_xml() + vertices_xml(points, n as int),
                rolls,
            );
            lemma_concat_assoc(open_tag("element"@), description_xml(), vertices_xml(points, n as int));
            lemma_concat_assoc(
                open_tag("element"@),
                description_xml() + vertices_xml(points, n as int),
                rolls,
            );
            lemma_element_appended(start, "element"@, body);
            lemma_element_appended(xml_declaration(), "root"@, inner);
            assert(rendered(w) =~= xml_text(w));
        }
        w.end_document()
    }
}

} // verus!
