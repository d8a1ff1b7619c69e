# riku

Semantic review of chip design files (Xschem schematics, GDSII layouts):
what changed between two commits at the level of components, nets, cells and
layers, and how it is shown.

`src/` is the library, verified with Verus: format recognition, the checks
and reports of the schematic and layout drivers, the layout comparison plan,
the layer palettes and stacking of the layout renderer, scene composition,
the text of `riku diff`, `riku log` and `riku doctor`, the shell's reading of
a line, and the decisions of the desktop viewer (project tree, cell picker,
start, painting). Each public function states its result in its `ensures`;
the laws that relate several functions are public proof functions (for
instance `report::lemma_report_round_trip`, `calendar::lemma_date_of_day`,
`log_format::lemma_sorted_refs`, `gds_diff::lemma_plan_swaps_sides`,
`gds_diff::lemma_layout_against_itself_reports_nothing`).

`app/` is the `riku` program around the library: arguments, the Git
repository, the environment, the shell loop, the calls into the schematic
engine and the GDSII reader, and the parts that draw with floating-point
coordinates: the SVG output of layout scenes (`app/layout`) and the egui
desktop viewer (`app/viewer`).

`tests/` runs the library on concrete values.
