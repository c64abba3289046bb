# adaptivegrain

A luma-adaptive grain mask for VapourSynth. Bright and dark areas get a
weaker mask than mid-tones; the strength follows the frame's average
brightness.

- `src/` is the verified library: which kernel a frame is processed with
  (`plan`), the format of the mask clip (`plan`), and the integer row pass
  that maps each sample through a 256-entry table by its top eight bits
  (`lut`, over the sample types of `sample`), with the laws that tie them
  together.
- `app/` is the VapourSynth filter: frame and property access through the
  host, and the floating-point mask curve that fills the table and
  processes float clips.
- `tests/` exercises the library on concrete rows and formats.
