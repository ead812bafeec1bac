//! The worker side of the command protocol: one command at a time from the
//! host shell, each handled against the shared clip cache.  The host shell
//! (channels, file watching, image encoding, files) stays outside; this
//! module computes what each command answers.

use crate::clips::ClipLoader;
use crate::clips::Clips;
use crate::compositor::dens_of_map;
use crate::compositor::elements_ok;
use crate::compositor::is_render_of;
use crate::compositor::RenderError;
use crate::compositor::RenderOutput;
use crate::compositor::SurfaceContent;
use crate::raster::raster_of;
use crate::runtime::state_after;
use crate::sort::sort_by_order_spec;
use vstd::prelude::*;

verus! {

/// A command from the host shell to the worker.
pub enum Command {
    /// Render one frame at preview resolution and answer with raw pixels.
    Preview(u32),
    /// Render the fixed frame range to numbered image files.
    Render,
    /// A watched file changed: evict the project's cached clip.
    PlaygroundUpdate,
}

/// Seeks the script clip cached under `path` to `frame` and renders it as
/// raw pixels, serving both the preview command (one frame at preview
/// resolution) and the render command (each frame of a range at full
/// resolution).  Only a cached script clip previews: a missing path, or an
/// image clip, answers `ClipUnavailable`.
pub fn preview_frame(
    loader: &mut ClipLoader,
    path: &String,
    frame: u32,
    width: u32,
    height: u32,
) -> (r: Result<Vec<u8>, RenderError>)
    requires
        old(loader).wf(),
        width as int * height as int * 4 <= usize::MAX,
    ensures
        final(loader).wf(),
        final(loader).spec_len() == old(loader).spec_len(),
        dens_of_map(final(loader)@) =~= dens_of_map(old(loader)@),
        r matches Result::Ok(bytes) ==> {
            &&& old(loader)@.contains_key(path@)
            &&& old(loader)@[path@] matches Clips::ScriptClip(sc) && exists|out: RenderOutput|
                {
                    &&& #[trigger] is_render_of(
                        dens_of_map(old(loader)@).remove(path@),
                        state_after(sc.spec_script(), frame as nat + 1).elements,
                        width,
                        height,
                        out,
                    )
                    &&& out.content matches SurfaceContent::Passes(ps) && raster_of(
                        ps@,
                        width,
                        height,
                        bytes@,
                    )
                }
        },
        (r is Ok) <==> (old(loader)@.contains_key(path@) && (old(loader)@[path@] matches
        Clips::ScriptClip(sc) && elements_ok(
            dens_of_map(old(loader)@).remove(path@),
            sort_by_order_spec(state_after(sc.spec_script(), frame as nat + 1).elements),
        ))),
{
    proof {
        crate::clips::lemma_loader_view_finite(loader);
        crate::compositor::lemma_dens_dom(old(loader)@);
    }
    let taken = loader.take(path);
    match taken {
        Option::None => Result::Err(RenderError::ClipUnavailable(path.clone())),
        Option::Some(Clips::ImageClip(img)) => {
            loader.insert(path, Clips::ImageClip(img));
            proof {
                crate::compositor::lemma_dens_remove(old(loader)@, path@);
                crate::compositor::lemma_dens_insert(
                    old(loader)@.remove(path@),
                    path@,
                    old(loader)@[path@],
                );
                assert(old(loader)@.remove(path@).insert(path@, old(loader)@[path@]) =~= old(
                    loader,
                )@);
                assert(dens_of_map(loader@) =~= dens_of_map(old(loader)@));
            }
            Result::Err(RenderError::ClipUnavailable(path.clone()))
        },
        Option::Some(Clips::ScriptClip(sc)) => {
            let mut sc = sc;
            sc.set_frame(frame);
            proof {
                crate::compositor::lemma_dens_remove(old(loader)@, path@);
            }
            let rendered = sc.render_to_raw(loader, width, height);
            let ghost before_insert = loader@;
            loader.insert(path, Clips::ScriptClip(sc));
            proof {
                assert(dens_of_map(before_insert) =~= dens_of_map(old(loader)@).remove(path@));
                crate::compositor::lemma_dens_insert(before_insert, path@, Clips::ScriptClip(sc));
                assert(crate::compositor::den_of(Clips::ScriptClip(sc)) == crate::compositor::den_of(
                    old(loader)@[path@],
                ));
                assert(dens_of_map(loader@) =~= dens_of_map(old(loader)@));
            }
            rendered
        },
    }
}

} // verus!
