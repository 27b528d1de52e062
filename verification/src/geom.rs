use vstd::prelude::*;

verus! {

/// A charging station held by the spatial index. Coordinates are in
/// microdegrees (degrees times one million), so positions are exact integers.
#[derive(Clone, Copy, Debug, PartialEq, Eq, Structural)]
pub struct ChargerLocation {
    /// Latitude in microdegrees.
    pub latitude: i64,
    /// Longitude in microdegrees.
    pub longitude: i64,
    /// Station identifier from the ingested data set.
    pub id: u64,
}

/// A grid sample location to classify, in microdegrees.
#[derive(Clone, Copy, Debug, PartialEq, Eq, Structural)]
pub struct TrialPoint {
    /// Latitude in microdegrees.
    pub latitude: i64,
    /// Longitude in microdegrees.
    pub longitude: i64,
}

/// A rectangular region in degree space, in microdegrees.
#[derive(Clone, Copy, Debug, PartialEq, Eq, Structural)]
pub struct BoundingBox {
    pub lat_min: i64,
    pub lat_max: i64,
    pub lon_min: i64,
    pub lon_max: i64,
}

impl BoundingBox {
    /// Validity: ordered edges, within world coordinate range.
    pub open spec fn wf(self) -> bool {
        &&& -90_000_000 <= self.lat_min
        &&& self.lat_min <= self.lat_max
        &&& self.lat_max <= 90_000_000
        &&& -180_000_000 <= self.lon_min
        &&& self.lon_min <= self.lon_max
        &&& self.lon_max <= 180_000_000
    }

    /// Latitude extent in microdegrees (absolute difference of the edges).
    pub open spec fn width_spec(self) -> int {
        if self.lat_min <= self.lat_max {
            self.lat_max - self.lat_min
        } else {
            self.lat_min - self.lat_max
        }
    }

    /// Longitude extent in microdegrees (absolute difference of the edges).
    pub open spec fn height_spec(self) -> int {
        if self.lon_min <= self.lon_max {
            self.lon_max - self.lon_min
        } else {
            self.lon_min - self.lon_max
        }
    }

    /// Latitude extent in microdegrees.
    pub fn width(&self) -> (r: i64)
        requires
            self.wf(),
        ensures
            r == self.width_spec(),
    {
        self.lat_max - self.lat_min
    }

    /// Longitude extent in microdegrees.
    pub fn height(&self) -> (r: i64)
        requires
            self.wf(),
        ensures
            r == self.height_spec(),
    {
        self.lon_max - self.lon_min
    }

    /// Latitude width of each of the `n` bands that `chunkify` produces:
    /// the region's width divided by half the band count (the dividing
    /// count is truncated for odd `n`).
    pub open spec fn band_width(self, n: int) -> int {
        self.width_spec() / (n / 2)
    }

    /// Distance between the southern edges of consecutive bands: the width
    /// left after the first band, divided among the remaining starts and
    /// rounded up, so that the band starts reach the region's northern
    /// edge.
    pub open spec fn band_stride(self, n: int) -> int {
        (self.width_spec() - self.band_width(n) + (n - 2)) / (n - 1)
    }

    /// For a region at least `n` microdegrees wide, the stride between band
    /// starts never exceeds the band width, so each band reaches at least
    /// as far north as the next one starts and the bands cover the region.
    pub proof fn lemma_stride_at_most_band(self, n: int)
        requires
            self.wf(),
            2 <= n,
            self.width_spec() >= n,
        ensures
            0 <= self.band_stride(n) <= self.band_width(n),
    {
        let w = self.width_spec();
        let h = n / 2;
        let band = self.band_width(n);
        let stride = self.band_stride(n);
        vstd::arithmetic::div_mod::lemma_fundamental_div_mod(w, h);
        vstd::arithmetic::div_mod::lemma_mod_division_less_than_divisor(w, h);
        assert(1 <= band && band <= w) by (nonlinear_arith)
            requires
                w == h * band + (w % h),
                0 <= w % h < h,
                w >= n,
                2 <= n,
                h == n / 2,
                1 <= h,
                2 * h <= n <= 2 * h + 1,
        ;
        vstd::arithmetic::div_mod::lemma_fundamental_div_mod(w - band + (n - 2), n - 1);
        vstd::arithmetic::div_mod::lemma_mod_division_less_than_divisor(w - band + (n - 2), n - 1);
        assert(0 <= stride <= band) by (nonlinear_arith)
            requires
                w == h * band + (w % h),
                0 <= w % h < h,
                w - band + (n - 2) == (n - 1) * stride + ((w - band + (n - 2)) % (n - 1)),
                0 <= (w - band + (n - 2)) % (n - 1) < n - 1,
                w >= n,
                1 <= band <= w,
                2 <= n,
                h == n / 2,
                1 <= h,
                2 * h <= n <= 2 * h + 1,
        ;
    }

    /// The `i`th of the `n` bands that `chunkify` produces: band starts
    /// march north from the region's southern edge in steps of
    /// `band_stride`, clamped so that no band passes the region's northern
    /// edge — which pins the last band to end exactly there.
    pub open spec fn chunk_at(self, n: int, i: int) -> BoundingBox {
        let raw = self.lat_min + i * self.band_stride(n);
        let start = if raw > self.lat_max - self.band_width(n) {
            self.lat_max - self.band_width(n)
        } else {
            raw
        };
        BoundingBox {
            lat_min: start as i64,
            lat_max: (start + self.band_width(n)) as i64,
            lon_min: self.lon_min,
            lon_max: self.lon_max,
        }
    }

    /// Splits the region into `chunks` latitude bands sharing the full
    /// longitude span, for distribution across parallel workers.
    ///
    /// Each band's width is `width / (chunks / 2)`; the first band starts
    /// at the region's southern and western edges, band starts step north
    /// by an even stride, and the last band ends exactly at the region's
    /// northern edge. The stride rounds up and starts are clamped at the
    /// northern edge, so on any region at least `chunks` microdegrees wide
    /// consecutive bands overlap or touch and the bands cover the whole
    /// region. Every band lies within the region, and a point classified
    /// twice because it falls in an overlap is harmless to the downstream
    /// aggregation. Odd counts use the truncated half; counts below two
    /// are rejected because no band width would be defined.
    pub fn chunkify(self, chunks: usize) -> (r: Vec<BoundingBox>)
        requires
            self.wf(),
            2 <= chunks,
            chunks <= 0x7fff_ffff,
        ensures
            r@.len() == chunks,
            forall|i: int| 0 <= i < chunks ==> r@[i] == self.chunk_at(chunks as int, i),
            forall|i: int| 0 <= i < chunks ==> (#[trigger] r@[i]).wf(),
            forall|i: int|
                0 <= i < chunks ==> (#[trigger] r@[i]).width_spec() == self.width_spec() / (
                chunks / 2) as int,
            forall|i: int|
                0 <= i < chunks ==> (#[trigger] r@[i]).height_spec() == self.height_spec()
                    && r@[i].lon_min == self.lon_min && r@[i].lon_max == self.lon_max,
            r@[0].lat_min == self.lat_min,
            r@[chunks - 1].lat_max == self.lat_max,
            self.width_spec() >= chunks ==> forall|i: int|
                0 <= i < chunks - 1 ==> (#[trigger] r@[i + 1]).lat_min <= r@[i].lat_max,
    {
        let ghost n = chunks as int;
        let w: u64 = (self.lat_max - self.lat_min) as u64;
        let half: u64 = (chunks / 2) as u64;
        let band: u64 = w / half;
        let stride: u64 = (w - band + ((chunks - 2) as u64)) / ((chunks - 1) as u64);
        proof {
            assert(band == self.band_width(n));
            assert(stride == self.band_stride(n));
            assert(band <= w) by (nonlinear_arith)
                requires
                    band == w as int / (half as int),
                    half >= 1,
                    w >= 0,
            ;
            assert(w - band <= (n - 1) * stride <= w - band + (n - 2)) by (nonlinear_arith)
                requires
                    stride == (w - band + (n - 2)) / (n - 1),
                    n >= 2,
                    w >= band >= 0,
            ;
        }
        let mut out: Vec<BoundingBox> = Vec::new();
        let mut i: usize = 0;
        while i < chunks
            invariant
                self.wf(),
                2 <= chunks <= 0x7fff_ffff,
                n == chunks as int,
                0 <= i <= chunks,
                w == self.width_spec(),
                band == self.band_width(n),
                stride == self.band_stride(n),
                band <= w,
                w - band <= (n - 1) * stride <= w - band + (n - 2),
                out@.len() == i,
                forall|k: int| 0 <= k < i ==> out@[k] == self.chunk_at(n, k),
            decreases chunks - i,
        {
            proof {
                assert(i as int * stride as int <= (n - 1) * stride) by (nonlinear_arith)
                    requires
                        0 <= i as int <= n - 1,
                        stride >= 0,
                ;
            }
            let raw: i64 = self.lat_min + (i as i64) * (stride as i64);
            let cap: i64 = self.lat_max - (band as i64);
            let start: i64 = if raw > cap {
                cap
            } else {
                raw
            };
            out.push(
                BoundingBox {
                    lat_min: start,
                    lat_max: start + (band as i64),
                    lon_min: self.lon_min,
                    lon_max: self.lon_max,
                },
            );
            i += 1;
        }
        proof {
            assert(out@[0] == self.chunk_at(n, 0));
            assert(out@[n - 1] == self.chunk_at(n, n - 1));
            assert(out@[n - 1].lat_max == self.lat_max) by {
                assert((n - 1) * self.band_stride(n) >= w - band);
            }
            assert forall|k: int| 0 <= k < n implies (#[trigger] out@[k]).wf() && out@[k].width_spec()
                == self.band_width(n) by {
                assert(out@[k] == self.chunk_at(n, k));
                assert(k * self.band_stride(n) >= 0) by (nonlinear_arith)
                    requires
                        0 <= k,
                        self.band_stride(n) >= 0,
                ;
            }
            if self.width_spec() >= n {
                self.lemma_stride_at_most_band(n);
                assert forall|k: int| 0 <= k < n - 1 implies (#[trigger] out@[k + 1]).lat_min
                    <= out@[k].lat_max by {
                    assert(out@[k] == self.chunk_at(n, k));
                    assert(out@[k + 1] == self.chunk_at(n, k + 1));
                    assert((k + 1) * self.band_stride(n) == k * self.band_stride(n)
                        + self.band_stride(n)) by (nonlinear_arith);
                    assert(k * self.band_stride(n) >= 0) by (nonlinear_arith)
                        requires
                            0 <= k,
                            self.band_stride(n) >= 0,
                    ;
                }
            }
        }
        out
    }

    /// Number of grid rows (latitude steps) at the given resolution.
    pub open spec fn grid_rows(self, res: int) -> int {
        self.width_spec() / res
    }

    /// Number of grid columns (longitude steps) at the given resolution.
    pub open spec fn grid_cols(self, res: int) -> int {
        self.height_spec() / res
    }

    /// Produces one trial point per cell of a regular lattice over the
    /// region: starting at the minimum-latitude, minimum-longitude corner,
    /// stepping by `resolution` microdegrees on both axes, in row-major
    /// order (latitude outer, longitude inner).
    pub fn generate_grid(self, resolution: i64) -> (r: Vec<TrialPoint>)
        requires
            self.wf(),
            resolution >= 1,
            self.grid_rows(resolution as int) * self.grid_cols(resolution as int) <= usize::MAX,
        ensures
            r@.len() == self.grid_rows(resolution as int) * self.grid_cols(resolution as int),
            forall|k: int|
                0 <= k < r@.len() ==> {
                    let p = #[trigger] r@[k];
                    &&& p.latitude == self.lat_min + (k / self.grid_cols(resolution as int))
                        * resolution
                    &&& p.longitude == self.lon_min + (k % self.grid_cols(resolution as int))
                        * resolution
                },
    {
        let ghost res = resolution as int;
        let w: u64 = (self.lat_max - self.lat_min) as u64;
        let h: u64 = (self.lon_max - self.lon_min) as u64;
        let rows: u64 = w / (resolution as u64);
        let cols: u64 = h / (resolution as u64);
        proof {
            assert(rows == self.grid_rows(res));
            assert(cols == self.grid_cols(res));
            assert(rows * res <= w && cols * res <= h) by (nonlinear_arith)
                requires
                    rows == w as int / res,
                    cols == h as int / res,
                    res >= 1,
                    w >= 0,
                    h >= 0,
            ;
        }
        let mut grid: Vec<TrialPoint> = Vec::new();
        let mut i: u64 = 0;
        while i < rows
            invariant
                self.wf(),
                res == resolution as int,
                resolution >= 1,
                w == self.width_spec(),
                h == self.height_spec(),
                rows == self.grid_rows(res),
                cols == self.grid_cols(res),
                rows * res <= w,
                cols * res <= h,
                rows * cols <= usize::MAX,
                0 <= i <= rows,
                grid@.len() == i * cols,
                forall|k: int|
                    0 <= k < grid@.len() ==> {
                        let p = #[trigger] grid@[k];
                        &&& p.latitude == self.lat_min + (k / cols as int) * res
                        &&& p.longitude == self.lon_min + (k % cols as int) * res
                    },
            decreases rows - i,
        {
            proof {
                assert(i * res < rows * res && (i + 1) * cols <= rows * cols) by (nonlinear_arith)
                    requires
                        0 <= i < rows,
                        res >= 1,
                        cols >= 0,
                ;
            }
            let latitude: i64 = self.lat_min + (i as i64) * resolution;
            let mut j: u64 = 0;
            while j < cols
                invariant
                    self.wf(),
                    res == resolution as int,
                    resolution >= 1,
                    w == self.width_spec(),
                    h == self.height_spec(),
                    rows == self.grid_rows(res),
                    cols == self.grid_cols(res),
                    rows * res <= w,
                    cols * res <= h,
                    rows * cols <= usize::MAX,
                    0 <= i < rows,
                    i * res < rows * res,
                    (i + 1) * cols <= rows * cols,
                    latitude == self.lat_min + i * res,
                    0 <= j <= cols,
                    grid@.len() == i * cols + j,
                    forall|k: int|
                        0 <= k < grid@.len() ==> {
                            let p = #[trigger] grid@[k];
                            &&& p.latitude == self.lat_min + (k / cols as int) * res
                            &&& p.longitude == self.lon_min + (k % cols as int) * res
                        },
                decreases cols - j,
            {
                proof {
                    assert(j * res < cols * res) by (nonlinear_arith)
                        requires
                            0 <= j < cols,
                            res >= 1,
                    ;
                    assert(i * cols + j < (i + 1) * cols) by (nonlinear_arith)
                        requires
                            0 <= j < cols,
                    ;
                    vstd::arithmetic::div_mod::lemma_fundamental_div_mod_converse(
                        i * cols + j,
                        cols as int,
                        i as int,
                        j as int,
                    );
                }
                let longitude: i64 = self.lon_min + (j as i64) * resolution;
                grid.push(TrialPoint { latitude, longitude });
                j += 1;
            }
            i += 1;
            proof {
                assert(i * cols == (i - 1) * cols + cols) by (nonlinear_arith);
            }
        }
        grid
    }
}

} // verus!
