//! The traits of volumes, and painting for volumes that only know how to read a voxel.

use crate::volume::image::{Color32, Image};
use crate::volume::tile::{quotients_go_towards_zero, three_coords, trunc_div};
use crate::volume::DrawingConfig;
use vstd::prelude::*;

verus! {

/// A canvas in the world: the point in its middle, which coordinates run along its rows and its
/// columns and which one is fixed, its size, and how many world units a pixel covers.
#[derive(Clone, Copy)]
pub struct Canvas {
    pub xyz: [i32; 3],
    pub u_coord: usize,
    pub v_coord: usize,
    pub plane_coord: usize,
    pub width: usize,
    pub height: usize,
    pub paint_zoom: u8,
}

/// How far pixel `i` of `n` is from the middle.
pub open spec fn from_middle(i: int, n: int, zoom: int) -> int {
    (i - n / 2) * zoom
}

/// The coordinates of the `n` pixels around `center` are in range.
pub open spec fn in_range(center: int, n: int, zoom: int) -> bool {
    &&& n * zoom <= i32::MAX
    &&& i32::MIN <= center - n / 2 * zoom
    &&& center + (n - n / 2) * zoom <= i32::MAX
}

impl Canvas {
    pub open spec fn valid(&self) -> bool {
        &&& three_coords(self.u_coord, self.v_coord, self.plane_coord)
        &&& self.paint_zoom >= 1
        &&& in_range(self.xyz@[self.u_coord as int] as int, self.width as int, self.paint_zoom as int)
        &&& in_range(self.xyz@[self.v_coord as int] as int, self.height as int, self.paint_zoom as int)
    }

    /// The world coordinates of a pixel.
    pub open spec fn point(&self, x: int, y: int) -> Seq<int> {
        seq![0int, 0, 0].update(
            self.u_coord as int,
            self.xyz@[self.u_coord as int] + from_middle(x, self.width as int, self.paint_zoom as int),
        ).update(
            self.v_coord as int,
            self.xyz@[self.v_coord as int] + from_middle(y, self.height as int, self.paint_zoom as int),
        ).update(self.plane_coord as int, self.xyz@[self.plane_coord as int] as int)
    }

    /// The world coordinates of a pixel.
    pub fn world(&self, x: usize, y: usize) -> (p: [i32; 3])
        requires
            self.valid(),
            x < self.width,
            y < self.height,
        ensures
            p@.map_values(|c: i32| c as int) == self.point(x as int, y as int),
            p@[0] == self.point(x as int, y as int)[0],
            p@[1] == self.point(x as int, y as int)[1],
            p@[2] == self.point(x as int, y as int)[2],
    {
        proof {
            lemma_from_middle(
                x as int,
                self.xyz@[self.u_coord as int] as int,
                self.width as int,
                self.paint_zoom as int,
            );
            lemma_from_middle(
                y as int,
                self.xyz@[self.v_coord as int] as int,
                self.height as int,
                self.paint_zoom as int,
            );
        }
        let zoom: i32 = self.paint_zoom as i32;
        let rel_u: i32 = (x as i32 - self.width as i32 / 2) * zoom;
        let rel_v: i32 = (y as i32 - self.height as i32 / 2) * zoom;
        let mut p: [i32; 3] = [0; 3];
        p[self.u_coord] = self.xyz[self.u_coord] + rel_u;
        p[self.v_coord] = self.xyz[self.v_coord] + rel_v;
        p[self.plane_coord] = self.xyz[self.plane_coord];
        assert(p@.map_values(|c: i32| c as int) =~= self.point(x as int, y as int));
        p
    }
}

proof fn lemma_from_middle(i: int, center: int, n: int, zoom: int)
    requires
        0 <= i < n,
        zoom >= 1,
        in_range(center, n, zoom),
    ensures
        n <= i32::MAX,
        i32::MIN <= from_middle(i, n, zoom) <= i32::MAX,
        i32::MIN <= center + from_middle(i, n, zoom) <= i32::MAX,
{
    let half = n / 2;
    assert(n <= n * zoom) by (nonlinear_arith)
        requires
            n >= 0,
            zoom >= 1,
    ;
    assert(-(half * zoom) <= (i - half) * zoom <= (n - half) * zoom) by (nonlinear_arith)
        requires
            0 <= i < n,
            zoom >= 1,
    ;
    assert(half * zoom <= n * zoom && (n - half) * zoom <= n * zoom) by (nonlinear_arith)
        requires
            0 <= half <= n,
            zoom >= 1,
    ;
}

/// A volume whose voxels can be read.
pub trait VoxelVolume {
    /// The voxel at `xyz`, in units of `downsampling` voxels of the full resolution.
    fn get(&self, xyz: [i32; 3], downsampling: i32) -> u8;
}

/// A volume that can be painted.
pub trait PaintVolume {
    /// `after` is a picture that painting on the canvas can make of `before`.
    spec fn paints(
        &self,
        canvas: Canvas,
        sfactor: u8,
        config: DrawingConfig,
        before: Image,
        after: Image,
    ) -> bool;

    fn paint(
        &self,
        xyz: [i32; 3],
        u_coord: usize,
        v_coord: usize,
        plane_coord: usize,
        width: usize,
        height: usize,
        sfactor: u8,
        paint_zoom: u8,
        config: &DrawingConfig,
        buffer: &mut Image,
    )
        requires
            (Canvas { xyz, u_coord, v_coord, plane_coord, width, height, paint_zoom }).valid(),
            sfactor >= 1,
            old(buffer).valid(),
            width <= old(buffer).width,
            height <= old(buffer).height,
        ensures
            old(buffer).same_size(*final(buffer)),
            self.paints(
                (Canvas { xyz, u_coord, v_coord, plane_coord, width, height, paint_zoom }),
                sfactor,
                *config,
                *old(buffer),
                *final(buffer),
            ),
    ;
}

/// A volume that can be read and painted.
pub trait VoxelPaintVolume: PaintVolume + VoxelVolume {

}

impl<T: PaintVolume + VoxelVolume> VoxelPaintVolume for T {

}

/// A surface that can also be outlined where it cuts a plane.
pub trait SurfaceVolume: PaintVolume + VoxelVolume {
    /// `after` is a picture that outlining the surface on the canvas, with the section around a
    /// point of the surface highlighted, can make of `before`.
    spec fn outlines(
        &self,
        canvas: Canvas,
        highlight_uv_section: Option<[i32; 3]>,
        config: DrawingConfig,
        before: Image,
        after: Image,
    ) -> bool;

    fn paint_plane_intersection(
        &self,
        xyz: [i32; 3],
        u_coord: usize,
        v_coord: usize,
        plane_coord: usize,
        width: usize,
        height: usize,
        sfactor: u8,
        paint_zoom: u8,
        highlight_uv_section: Option<[i32; 3]>,
        config: &DrawingConfig,
        buffer: &mut Image,
    )
        requires
            (Canvas { xyz, u_coord, v_coord, plane_coord, width, height, paint_zoom }).valid(),
            old(buffer).valid(),
        ensures
            old(buffer).same_size(*final(buffer)),
            self.outlines(
                (Canvas { xyz, u_coord, v_coord, plane_coord, width, height, paint_zoom }),
                highlight_uv_section,
                *config,
                *old(buffer),
                *final(buffer),
            ),
    ;
}

/// For volumes that are painted by reading one voxel for each pixel.
pub trait AutoPaintVolume {

}

/// The voxel that is read for a pixel.
pub open spec fn sample_point(canvas: Canvas, sfactor: int, x: int, y: int) -> Seq<int> {
    canvas.point(x, y).map_values(|c: int| trunc_div(c, sfactor))
}

/// Pixel (`x`, `y`) shows a value that the volume gave for its point.
pub open spec fn shows_voxel<T: VoxelVolume>(
    volume: T,
    canvas: Canvas,
    sfactor: u8,
    x: int,
    y: int,
    color: Color32,
) -> bool {
    exists|p: [i32; 3], v: u8|
        {
            &&& p@.map_values(|c: i32| c as int) == sample_point(canvas, sfactor as int, x, y)
            &&& #[trigger] call_ensures(T::get, (&volume, p, sfactor as i32), v)
            &&& color == Color32::gray(v)
        }
}

fn down(c: i32, sfactor: i32) -> (r: i32)
    requires
        sfactor >= 1,
    ensures
        r == trunc_div(c as int, sfactor as int),
{
    c / sfactor
}

impl<T: VoxelVolume + AutoPaintVolume> PaintVolume for T {
    /// Every pixel of the canvas shows a voxel, and all others keep their colour.
    open spec fn paints(
        &self,
        canvas: Canvas,
        sfactor: u8,
        config: DrawingConfig,
        before: Image,
        after: Image,
    ) -> bool {
        &&& before.same_size(after)
        &&& forall|x: int, y: int|
            0 <= x < canvas.width && 0 <= y < canvas.height ==> shows_voxel(
                *self,
                canvas,
                sfactor,
                x,
                y,
                #[trigger] after.pixel(x, y),
            )
        &&& forall|x: int, y: int|
            before.inside(x, y) && (x >= canvas.width || y >= canvas.height) ==> #[trigger] after.pixel(x, y)
                == before.pixel(x, y)
    }

    fn paint(
        &self,
        xyz: [i32; 3],
        u_coord: usize,
        v_coord: usize,
        plane_coord: usize,
        width: usize,
        height: usize,
        sfactor: u8,
        paint_zoom: u8,
        config: &DrawingConfig,
        buffer: &mut Image,
    )
    {
        let canvas = Canvas { xyz, u_coord, v_coord, plane_coord, width, height, paint_zoom };
        let fi32: i32 = sfactor as i32;
        let ghost before = *buffer;
        let mut im_v: usize = 0;
        while im_v < height
            invariant
                canvas.valid(),
                canvas.width == width && canvas.height == height,
                fi32 == sfactor,
                sfactor >= 1,
                before.same_size(*buffer),
                width <= before.width,
                height <= before.height,
                im_v <= height,
                forall|x: int, y: int|
                    0 <= x < width && 0 <= y < im_v ==> shows_voxel(
                        *self,
                        canvas,
                        sfactor,
                        x,
                        y,
                        #[trigger] buffer.pixel(x, y),
                    ),
                forall|x: int, y: int|
                    before.inside(x, y) && (x >= width || y >= im_v) ==> #[trigger] buffer.pixel(x, y)
                        == before.pixel(x, y),
            decreases height - im_v,
        {
            let mut im_u: usize = 0;
            while im_u < width
                invariant
                    canvas.valid(),
                    canvas.width == width && canvas.height == height,
                    fi32 == sfactor,
                    sfactor >= 1,
                    before.same_size(*buffer),
                    width <= before.width,
                    height <= before.height,
                    im_v < height,
                    im_u <= width,
                    forall|x: int, y: int|
                        0 <= x < width && (0 <= y < im_v || (y == im_v && x < im_u)) ==> shows_voxel(
                            *self,
                            canvas,
                            sfactor,
                            x,
                            y,
                            #[trigger] buffer.pixel(x, y),
                        ),
                    forall|x: int, y: int|
                        before.inside(x, y) && (x >= width || y > im_v || (y == im_v && x >= im_u))
                            ==> #[trigger] buffer.pixel(x, y) == before.pixel(x, y),
                decreases width - im_u,
            {
                let p = canvas.world(im_u, im_v);
                let uvw: [i32; 3] = [down(p[0], fi32), down(p[1], fi32), down(p[2], fi32)];
                let v: u8 = self.get(uvw, fi32);
                buffer.set_gray(im_u, im_v, v);
                proof {
                    assert(uvw@.map_values(|c: i32| c as int) =~= sample_point(
                        canvas,
                        sfactor as int,
                        im_u as int,
                        im_v as int,
                    ));
                    assert(call_ensures(T::get, (self, uvw, sfactor as i32), v));
                    assert(shows_voxel(
                        *self,
                        canvas,
                        sfactor,
                        im_u as int,
                        im_v as int,
                        buffer.pixel(im_u as int, im_v as int),
                    ));
                }
                im_u += 1;
            }
            im_v += 1;
        }
    }
}

/// A volume with nothing in it.
pub struct EmptyVolume {}

impl VoxelVolume for EmptyVolume {
    fn get(&self, xyz: [i32; 3], downsampling: i32) -> (v: u8)
        ensures
            v == 0,
    {
        0
    }
}

impl PaintVolume for EmptyVolume {
    open spec fn paints(
        &self,
        canvas: Canvas,
        sfactor: u8,
        config: DrawingConfig,
        before: Image,
        after: Image,
    ) -> bool {
        before == after
    }

    fn paint(
        &self,
        xyz: [i32; 3],
        u_coord: usize,
        v_coord: usize,
        plane_coord: usize,
        width: usize,
        height: usize,
        sfactor: u8,
        paint_zoom: u8,
        config: &DrawingConfig,
        buffer: &mut Image,
    )
    {
    }
}

impl SurfaceVolume for EmptyVolume {
    open spec fn outlines(
        &self,
        canvas: Canvas,
        highlight_uv_section: Option<[i32; 3]>,
        config: DrawingConfig,
        before: Image,
        after: Image,
    ) -> bool {
        before == after
    }

    fn paint_plane_intersection(
        &self,
        xyz: [i32; 3],
        u_coord: usize,
        v_coord: usize,
        plane_coord: usize,
        width: usize,
        height: usize,
        sfactor: u8,
        paint_zoom: u8,
        highlight_uv_section: Option<[i32; 3]>,
        config: &DrawingConfig,
        buffer: &mut Image,
    )
    {
    }
}

/// A volume that is read between its voxels. Here it collects the eight voxels around a point.
pub struct TrilinearInterpolatedVolume<V: VoxelVolume> {
    pub base: V,
}

/// The corner `i` of the cube that starts at `xyz`: bit 0 stands for x, bit 1 for y, bit 2 for z.
pub open spec fn corner(xyz: Seq<int>, i: int) -> Seq<int> {
    seq![xyz[0] + i % 2, xyz[1] + i / 2 % 2, xyz[2] + i / 4]
}

/// The volume gives `value` for corner `i` of the cube that starts at `xyz`.
pub open spec fn corner_value<V: VoxelVolume>(
    base: V,
    xyz: Seq<int>,
    downsampling: i32,
    i: int,
    value: u8,
) -> bool {
    exists|p: [i32; 3]|
        {
            &&& p@.map_values(|c: i32| c as int) == corner(xyz, i)
            &&& #[trigger] call_ensures(V::get, (&base, p, downsampling), value)
        }
}

impl<V: VoxelVolume> TrilinearInterpolatedVolume<V> {
    /// The voxels at the corners of the cube that starts at `xyz`.
    pub fn corners(&self, xyz: [i32; 3], downsampling: i32) -> (values: [u8; 8])
        requires
            xyz@[0] < i32::MAX && xyz@[1] < i32::MAX && xyz@[2] < i32::MAX,
        ensures
            forall|i: int|
                0 <= i < 8 ==> corner_value(
                    self.base,
                    xyz@.map_values(|c: i32| c as int),
                    downsampling,
                    i,
                    #[trigger] values@[i],
                ),
    {
        let mut values: [u8; 8] = [0; 8];
        let ghost start = xyz@.map_values(|c: i32| c as int);
        let mut i: usize = 0;
        while i < 8
            invariant
                i <= 8,
                start == xyz@.map_values(|c: i32| c as int),
                xyz@[0] < i32::MAX && xyz@[1] < i32::MAX && xyz@[2] < i32::MAX,
                forall|k: int|
                    0 <= k < i ==> corner_value(
                        self.base,
                        start,
                        downsampling,
                        k,
                        #[trigger] values@[k],
                    ),
            decreases 8 - i,
        {
            let dx: i32 = (i % 2) as i32;
            let dy: i32 = (i / 2 % 2) as i32;
            let dz: i32 = (i / 4) as i32;
            let p: [i32; 3] = [xyz[0] + dx, xyz[1] + dy, xyz[2] + dz];
            let v: u8 = self.base.get(p, downsampling);
            values[i] = v;
            proof {
                assert(p@.map_values(|c: i32| c as int) =~= corner(start, i as int));
                assert(call_ensures(V::get, (&self.base, p, downsampling), v));
                assert(corner_value(self.base, start, downsampling, i as int, v));
            }
            i += 1;
        }
        values
    }
}

/// The pixel in the middle shows the point that the canvas is around. The next pixel to the right
/// lies `paint_zoom` further along the one coordinate, the next one below as far along the other,
/// and no pixel leaves the plane.
pub proof fn pixels_are_evenly_spaced(canvas: Canvas, x: int, y: int)
    requires
        three_coords(canvas.u_coord, canvas.v_coord, canvas.plane_coord),
    ensures
        canvas.point(canvas.width as int / 2, canvas.height as int / 2) == canvas.xyz@.map_values(
            |c: i32| c as int,
        ),
        canvas.point(x + 1, y) == canvas.point(x, y).update(
            canvas.u_coord as int,
            canvas.point(x, y)[canvas.u_coord as int] + canvas.paint_zoom,
        ),
        canvas.point(x, y + 1) == canvas.point(x, y).update(
            canvas.v_coord as int,
            canvas.point(x, y)[canvas.v_coord as int] + canvas.paint_zoom,
        ),
        canvas.point(x, y).len() == 3,
        canvas.point(x, y)[canvas.plane_coord as int] == canvas.xyz@[canvas.plane_coord as int],
{
    let zoom = canvas.paint_zoom as int;
    let (i, j) = (x - canvas.width as int / 2, y - canvas.height as int / 2);
    assert((i + 1) * zoom == i * zoom + zoom) by (nonlinear_arith);
    assert((j + 1) * zoom == j * zoom + zoom) by (nonlinear_arith);
    assert(0 * zoom == 0) by (nonlinear_arith);
    assert(canvas.point(canvas.width as int / 2, canvas.height as int / 2) =~= canvas.xyz@.map_values(
        |c: i32| c as int,
    ));
    assert(canvas.point(x + 1, y) =~= canvas.point(x, y).update(
        canvas.u_coord as int,
        canvas.point(x, y)[canvas.u_coord as int] + canvas.paint_zoom,
    ));
    assert(canvas.point(x, y + 1) =~= canvas.point(x, y).update(
        canvas.v_coord as int,
        canvas.point(x, y)[canvas.v_coord as int] + canvas.paint_zoom,
    ));
}

/// The voxel that is read for a pixel is the one that holds the pixel's point: counted from zero
/// outwards, a voxel reaches over `sfactor` units.
pub proof fn voxels_hold_their_points(canvas: Canvas, sfactor: int, x: int, y: int, i: int)
    requires
        canvas.valid(),
        sfactor >= 1,
        0 <= i < 3,
    ensures
        sample_point(canvas, sfactor, x, y).len() == 3,
        canvas.point(x, y)[i] >= 0 ==> {
            let q = sample_point(canvas, sfactor, x, y)[i];
            q >= 0 && q * sfactor <= canvas.point(x, y)[i] < (q + 1) * sfactor
        },
        canvas.point(x, y)[i] <= 0 ==> {
            let q = sample_point(canvas, sfactor, x, y)[i];
            q <= 0 && (q - 1) * sfactor < canvas.point(x, y)[i] <= q * sfactor
        },
{
    quotients_go_towards_zero(canvas.point(x, y)[i], sfactor);
}

/// The corner that lies `dx`, `dy` and `dz` steps along the three coordinates has the number that
/// has these as its bits, the one of x being the lowest.
pub proof fn corners_are_numbered_by_their_bits(xyz: Seq<int>, dx: int, dy: int, dz: int)
    requires
        0 <= dx <= 1,
        0 <= dy <= 1,
        0 <= dz <= 1,
    ensures
        corner(xyz, dx + 2 * dy + 4 * dz) == seq![xyz[0] + dx, xyz[1] + dy, xyz[2] + dz],
{
}

} // verus!
