//! A trivial extension layer that stamps fixed text onto the canvas,
//! useful for exercising the glyph renderer through the pipeline.

use vstd::prelude::*;
use vstd::string::StringSliceAdditionalSpecFns;
use crate::canvas::ChartBuffer;
use crate::data::OHLC;
use crate::layers::RendererExtension;

verus! {

/// Draws the same sample text twice, once opaque and once with a
/// half alpha (the glyph renderer ignores alpha, so both render the
/// same way).
#[derive(Clone, Debug)]
pub struct TestText;

impl RendererExtension for TestText {
    fn apply(&self, buffer: &mut ChartBuffer, data: &Vec<OHLC>)
        // Both stampings really show: every glyph pixel of the first
        // draw at the top-left corner and of the second draw sixty
        // rows below carries the blend of its coverage with the
        // respective ink colour over the configured background.
        ensures
            forall|ci: int, r: int, c: int|
                0 <= ci < ("DANKMEME").spec_bytes().len() && 0 <= r < 7 && 0 <= c < 5 && 6 * ci + c
                    < old(buffer).width && r < old(buffer).height ==> crate::canvas::spec_pixel_at(
                    final(buffer).buffer@,
                    old(buffer).width as int,
                    6 * ci + c,
                    r,
                ) == #[trigger] crate::canvas::spec_glyph_rgb(
                    ("DANKMEME").spec_bytes()[ci],
                    r,
                    c,
                    0xFFFF00FFu32,
                    old(buffer).background_colour,
                ),
            forall|ci: int, r: int, c: int|
                0 <= ci < ("DANKMEME").spec_bytes().len() && 0 <= r < 7 && 0 <= c < 5 && 6 * ci + c
                    < old(buffer).width && 60 + r < old(buffer).height
                    ==> crate::canvas::spec_pixel_at(
                    final(buffer).buffer@,
                    old(buffer).width as int,
                    6 * ci + c,
                    60 + r,
                ) == #[trigger] crate::canvas::spec_glyph_rgb(
                    ("DANKMEME").spec_bytes()[ci],
                    r,
                    c,
                    0xFFFF007Fu32,
                    old(buffer).background_colour,
                ),
    {
        let ghost me = *old(buffer);
        buffer.text((0, 0), "DANKMEME", 0xFFFF00FF);
        let ghost mid = *buffer;
        buffer.text((0, 60), "DANKMEME", 0xFFFF007F);
        proof {
            assert forall|ci: int, r: int, c: int|
                0 <= ci < ("DANKMEME").spec_bytes().len() && 0 <= r < 7 && 0 <= c < 5 && 6 * ci + c
                    < me.width && r < me.height implies crate::canvas::spec_pixel_at(
                buffer.buffer@,
                me.width as int,
                6 * ci + c,
                r,
            ) == #[trigger] crate::canvas::spec_glyph_rgb(
                ("DANKMEME").spec_bytes()[ci],
                r,
                c,
                0xFFFF00FFu32,
                me.background_colour,
            ) by {
                // The second stamping sits sixty rows lower, so its
                // box misses every pixel of the first one.
                assert(crate::canvas::spec_pixel_at(buffer.buffer@, me.width as int, 6 * ci + c, r)
                    == crate::canvas::spec_pixel_at(mid.buffer@, me.width as int, 6 * ci + c, r));
            }
        }
        let _ = data;
    }

    fn lore_colour(&self) -> (r: Option<u32>)
        ensures
            r is None,
    {
        None
    }

    fn name(&self) -> (r: String)
        ensures
            r@ == "TEST_Text()"@,
    {
        String::from_str("TEST_Text()")
    }
}

impl PartialEq for TestText {
    fn eq(&self, other: &TestText) -> (r: bool) {
        let _ = other;
        true
    }
}

impl vstd::std_specs::cmp::PartialEqSpecImpl for TestText {
    open spec fn obeys_eq_spec() -> bool {
        true
    }

    open spec fn eq_spec(&self, other: &TestText) -> bool {
        true
    }
}

} // verus!
