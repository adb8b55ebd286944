# kpt_lib

Keyboard plate prototyping: a keyboard layout (JSON) becomes the outline
of a switch plate, exported as a DXF drawing or as a PLY mesh.

* `src/` is the verified library:
  * `command` – the menu commands of the command-line program;
  * `mesh` – the index topology of the plate mesh: finding the vertex at
    an outline point among the kept bottom triangles, and the faces of the
    extruded solid (bottom, top copy, side walls), with its laws;
  * `sprites` – the sprite index of each character drawn in the window.
* `app/` is the program around it: reading the layout, the float geometry
  of the cut-outs, the triangulation, DXF and PLY files, and the window.
* `tests/` runs the library on concrete values.
